//! From the qualified name of a module to the path of its page and to the
//! way back from that page to the root of the documentation.
//!
//! A qualified name separates the names of nested modules by `::`. It is
//! read from left to right, and a `::` is each pair of colons met that way:
//! in `a:::b` the first two colons separate, the third is a character of the
//! name that follows.
//!
//! A path separates directories by `/`. Every character of a name that is
//! not part of a separator stands in the path as it is: no name is refused
//! and no character is escaped. A name that holds a colon or a slash of its
//! own thus gives a path that does not tell the nesting of its module. What
//! holds where names hold no colon is stated with the laws of paths.

use vstd::prelude::*;
use vstd::string::StringExecFns;
use vstd::string::StrSliceExecFns;
use crate::text::{chars_of, repeat, repeat_str};

verus! {

/// Whether `name` begins with a separator.
pub open spec fn separator_ahead(name: Seq<char>) -> bool {
    name.len() >= 2 && name[0] == ':' && name[1] == ':'
}

/// How many separators `name` holds: as many as the nesting of the module
/// that it names.
pub open spec fn separator_count(name: Seq<char>) -> nat
    decreases name.len(),
{
    if name.len() == 0 {
        0
    } else if separator_ahead(name) {
        1 + separator_count(name.skip(2))
    } else {
        separator_count(name.skip(1))
    }
}

/// `name` with `/` in place of each separator.
pub open spec fn slashed(name: Seq<char>) -> Seq<char>
    decreases name.len(),
{
    if name.len() == 0 {
        Seq::empty()
    } else if separator_ahead(name) {
        "/"@ + slashed(name.skip(2))
    } else {
        name.take(1) + slashed(name.skip(1))
    }
}

/// Where the page of the module `name` goes.
pub open spec fn page_path_of(name: Seq<char>) -> Seq<char> {
    "docs/"@ + slashed(name) + ".html"@
}

/// From the directory of the page of `name` up to the root of the
/// documentation: one `../` for each separator of the name.
pub open spec fn link_prefix_of(name: Seq<char>) -> Seq<char> {
    repeat("../"@, separator_count(name))
}

/// The path of the page of the module `name`.
pub fn page_path(name: &str) -> (path: String)
    ensures
        path@ == page_path_of(name@),
{
    let chars = chars_of(name);
    let n = chars.len();
    let mut path = String::from_str("docs/");
    let mut start: usize = 0;
    let mut i: usize = 0;
    proof {
        assert(name@.skip(0) =~= name@);
        assert(path@ + name@.subrange(0, 0) =~= path@);
    }
    while i < n
        invariant
            start <= i <= n,
            n == name@.len(),
            chars@ == name@,
            path@ + name@.subrange(start as int, i as int) + slashed(name@.skip(i as int))
                == "docs/"@ + slashed(name@),
        decreases n - i,
    {
        let ghost rest = name@.skip(i as int);
        if i + 1 < n && chars[i] == ':' && chars[i + 1] == ':' {
            proof {
                assert(separator_ahead(rest));
                assert(rest.skip(2) =~= name@.skip(i + 2));
                assert(name@.subrange(i + 2, i + 2) =~= Seq::<char>::empty());
                assert(path@ + name@.subrange(start as int, i as int) + ("/"@ + slashed(
                    rest.skip(2),
                )) =~= path@ + name@.subrange(start as int, i as int) + "/"@ + Seq::<
                    char,
                >::empty() + slashed(rest.skip(2)));
            }
            path.append(name.substring_char(start, i));
            path.append("/");
            i += 2;
            start = i;
        } else {
            proof {
                assert(!separator_ahead(rest));
                assert(rest.skip(1) =~= name@.skip(i + 1));
                assert(name@.subrange(start as int, i as int) + rest.take(1) =~= name@.subrange(
                    start as int,
                    i + 1,
                ));
                assert(path@ + name@.subrange(start as int, i as int) + (rest.take(1) + slashed(
                    rest.skip(1),
                )) =~= path@ + (name@.subrange(start as int, i as int) + rest.take(1)) + slashed(
                    rest.skip(1),
                ));
            }
            i += 1;
        }
    }
    proof {
        assert(name@.skip(n as int) =~= Seq::<char>::empty());
        assert(path@ + name@.subrange(start as int, n as int) + Seq::<char>::empty() =~= path@
            + name@.subrange(start as int, n as int));
    }
    path.append(name.substring_char(start, n));
    path.append(".html");
    path
}

/// How many separators `name` holds.
pub fn count_separators(name: &str) -> (count: usize)
    ensures
        count == separator_count(name@),
{
    let chars = chars_of(name);
    let n = chars.len();
    let mut count: usize = 0;
    let mut i: usize = 0;
    proof {
        assert(name@.skip(0) =~= name@);
    }
    while i < n
        invariant
            i <= n,
            n == name@.len(),
            chars@ == name@,
            count <= i,
            count + separator_count(name@.skip(i as int)) == separator_count(name@),
        decreases n - i,
    {
        let ghost rest = name@.skip(i as int);
        if i + 1 < n && chars[i] == ':' && chars[i + 1] == ':' {
            proof {
                assert(separator_ahead(rest));
                assert(rest.skip(2) =~= name@.skip(i + 2));
            }
            count += 1;
            i += 2;
        } else {
            proof {
                assert(!separator_ahead(rest));
                assert(rest.skip(1) =~= name@.skip(i + 1));
            }
            i += 1;
        }
    }
    proof {
        assert(name@.skip(n as int) =~= Seq::<char>::empty());
    }
    count
}

/// What a link on the page of `name` puts before a path from the root of the
/// documentation.
pub fn link_prefix(name: &str) -> (prefix: String)
    ensures
        prefix@ == link_prefix_of(name@),
{
    repeat_str("../", count_separators(name))
}

} // verus!
