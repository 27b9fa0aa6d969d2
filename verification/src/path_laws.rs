//! What holds of the paths and links of nested modules.

use vstd::prelude::*;
use crate::paths::{link_prefix_of, separator_ahead, separator_count, slashed};
use crate::text::{join, join_rest, repeat};

verus! {

/// A text without a colon: what the name of a single module is taken to be
/// where nesting is counted.
pub open spec fn colon_free(text: Seq<char>) -> bool {
    forall|i: int| 0 <= i < text.len() ==> text[i] != ':'
}

/// A separator in front of a text counts once and becomes one `/`.
pub proof fn lemma_separator_in_front(rest: Seq<char>)
    ensures
        separator_count("::"@ + rest) == 1 + separator_count(rest),
        slashed("::"@ + rest) == "/"@ + slashed(rest),
{
    reveal_strlit("::");
    let whole = "::"@ + rest;
    assert(separator_ahead(whole));
    assert(whole.skip(2) =~= rest);
}

/// A text without a colon holds no separator and stays as it is, whatever
/// follows it.
pub proof fn lemma_plain_in_front(plain: Seq<char>, rest: Seq<char>)
    requires
        colon_free(plain),
    ensures
        separator_count(plain + rest) == separator_count(rest),
        slashed(plain + rest) == plain + slashed(rest),
    decreases plain.len(),
{
    if plain.len() == 0 {
        assert(plain + rest =~= rest);
        assert(plain + slashed(rest) =~= slashed(rest));
    } else {
        let whole = plain + rest;
        assert(whole[0] == plain[0]);
        assert(!separator_ahead(whole));
        assert(whole.skip(1) =~= plain.skip(1) + rest);
        assert(colon_free(plain.skip(1))) by {
            assert forall|i: int| 0 <= i < plain.skip(1).len() implies plain.skip(1)[i]
                != ':' by {
                assert(plain.skip(1)[i] == plain[i + 1]);
            }
        }
        lemma_plain_in_front(plain.skip(1), rest);
        assert(whole.take(1) + (plain.skip(1) + slashed(rest)) =~= plain + slashed(rest));
    }
}

/// The name of a module inside another holds one separator more than the
/// name of that other: its page is one directory further down, and its links
/// go one `../` further up. The parent's name may be any text.
pub proof fn lemma_child_is_one_deeper(parent: Seq<char>, local: Seq<char>)
    requires
        colon_free(local),
    ensures
        separator_count(parent + "::"@ + local) == separator_count(parent) + 1,
        link_prefix_of(parent + "::"@ + local) == link_prefix_of(parent) + "../"@,
    decreases parent.len(),
{
    reveal_strlit("::");
    let tail = "::"@ + local;
    let whole = parent + "::"@ + local;
    assert(whole =~= parent + tail);
    assert(separator_count(tail) == 1) by {
        lemma_separator_in_front(local);
        lemma_plain_in_front(local, Seq::empty());
        assert(local + Seq::<char>::empty() =~= local);
    }
    if parent.len() == 0 {
        assert(whole =~= tail);
    } else if separator_ahead(parent) {
        assert(separator_ahead(whole));
        assert(whole.skip(2) =~= parent.skip(2) + "::"@ + local);
        lemma_child_is_one_deeper(parent.skip(2), local);
        assert(separator_count(whole) == 1 + separator_count(whole.skip(2)));
    } else if parent.len() == 1 && parent[0] == ':' {
        // The colon of the parent and the first of the two that follow make
        // the separator; the second is left before the local name.
        assert(separator_ahead(whole));
        let left = whole.skip(2);
        assert(left =~= ":"@ + local) by {
            reveal_strlit(":");
        }
        assert(separator_count(parent.skip(1)) == 0);
        if left.len() >= 2 {
            assert(left[1] == local[0]);
        }
        assert(!separator_ahead(left));
        assert(left.skip(1) =~= local);
        lemma_plain_in_front(local, Seq::empty());
        assert(local + Seq::<char>::empty() =~= local);
        assert(separator_count(left) == separator_count(local));
        assert(separator_count(whole) == 1 + separator_count(left));
    } else {
        assert(!separator_ahead(whole));
        assert(whole.skip(1) =~= parent.skip(1) + "::"@ + local);
        lemma_child_is_one_deeper(parent.skip(1), local);
        assert(separator_count(whole) == separator_count(whole.skip(1)));
    }
    assert(separator_count(whole) == separator_count(parent) + 1);
}

/// The name of a module, and what may follow it in a longer text: the names
/// of the modules around it and its own, none with a colon, `::` between
/// them. It holds one separator less than it has names, and its path has the
/// same names with `/` between them.
pub proof fn lemma_nested_name_in_front(names: Seq<Seq<char>>, rest: Seq<char>)
    requires
        names.len() >= 1,
        forall|i: int| 0 <= i < names.len() ==> colon_free(#[trigger] names[i]),
    ensures
        separator_count(join(names, "::"@) + rest) == names.len() - 1 + separator_count(rest),
        slashed(join(names, "::"@) + rest) == join(names, "/"@) + slashed(rest),
    decreases names.len(),
{
    if names.len() == 1 {
        assert(join_rest(names, "::"@) =~= Seq::<char>::empty());
        assert(join_rest(names, "/"@) =~= Seq::<char>::empty());
        assert(join(names, "::"@) =~= names[0]);
        assert(join(names, "/"@) =~= names[0]);
        lemma_plain_in_front(names[0], rest);
    } else {
        let front = names.drop_last();
        let last = names.last();
        assert(front[0] == names[0]);
        assert(join(names, "::"@) + rest =~= join(front, "::"@) + ("::"@ + (last + rest)));
        assert(join(names, "/"@) + slashed(rest) =~= join(front, "/"@) + ("/"@ + (last + slashed(
            rest,
        ))));
        lemma_nested_name_in_front(front, "::"@ + (last + rest));
        lemma_separator_in_front(last + rest);
        lemma_plain_in_front(last, rest);
    }
}

/// The page of a module nested under `names.len() - 1` others, none of the
/// names with a colon, lies that many directories below the root, and its
/// links go up by as many `../`.
pub proof fn lemma_nested_name(names: Seq<Seq<char>>)
    requires
        names.len() >= 1,
        forall|i: int| 0 <= i < names.len() ==> colon_free(#[trigger] names[i]),
    ensures
        separator_count(join(names, "::"@)) == names.len() - 1,
        slashed(join(names, "::"@)) == join(names, "/"@),
        link_prefix_of(join(names, "::"@)) == repeat("../"@, (names.len() - 1) as nat),
{
    lemma_nested_name_in_front(names, Seq::empty());
    assert(join(names, "::"@) + Seq::<char>::empty() =~= join(names, "::"@));
    assert(join(names, "/"@) + Seq::<char>::empty() =~= join(names, "/"@));
}

/// A module two levels down links to the stylesheet through `../../`.
pub proof fn lemma_two_levels_down(top: Seq<char>, middle: Seq<char>, local: Seq<char>)
    requires
        colon_free(top),
        colon_free(middle),
        colon_free(local),
    ensures
        link_prefix_of(top + "::"@ + middle + "::"@ + local) == "../../"@,
{
    lemma_plain_in_front(top, Seq::empty());
    assert(top + Seq::<char>::empty() =~= top);
    lemma_child_is_one_deeper(top, middle);
    lemma_child_is_one_deeper(top + "::"@ + middle, local);
    reveal_with_fuel(repeat, 3);
    reveal_strlit("../");
    reveal_strlit("../../");
    assert(Seq::<char>::empty() + "../"@ + "../"@ =~= "../../"@);
}

} // verus!
