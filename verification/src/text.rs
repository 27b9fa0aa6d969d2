//! Joining and comparing text.

use vstd::prelude::*;
use vstd::string::StringExecFns;
use vstd::string::StringSliceAdditionalSpecFns;

verus! {

/// The views of a sequence of strings, in order.
pub open spec fn texts(parts: Seq<String>) -> Seq<Seq<char>> {
    Seq::new(parts.len(), |i: int| parts[i]@)
}

/// Every part but the first, each with `sep` in front of it.
pub open spec fn join_rest(parts: Seq<Seq<char>>, sep: Seq<char>) -> Seq<char>
    decreases parts.len(),
{
    if parts.len() <= 1 {
        Seq::empty()
    } else {
        join_rest(parts.drop_last(), sep) + sep + parts.last()
    }
}

/// The parts in order with `sep` between neighbours; empty for no parts.
pub open spec fn join(parts: Seq<Seq<char>>, sep: Seq<char>) -> Seq<char> {
    if parts.len() == 0 {
        Seq::empty()
    } else {
        parts[0] + join_rest(parts, sep)
    }
}

/// `unit`, `count` times over.
pub open spec fn repeat(unit: Seq<char>, count: nat) -> Seq<char>
    decreases count,
{
    if count == 0 {
        Seq::empty()
    } else {
        repeat(unit, (count - 1) as nat) + unit
    }
}

/// Joining one part gives that part, whatever the separator.
pub proof fn lemma_join_one(part: Seq<char>, sep: Seq<char>)
    ensures
        join(seq![part], sep) == part,
{
    assert(join_rest(seq![part], sep) == Seq::<char>::empty());
    assert(part + Seq::<char>::empty() =~= part);
}

/// Joining two parts puts the separator once, between them.
pub proof fn lemma_join_two(first: Seq<char>, second: Seq<char>, sep: Seq<char>)
    ensures
        join(seq![first, second], sep) == first + sep + second,
{
    let parts = seq![first, second];
    assert(parts.drop_last() =~= seq![first]);
    assert(join_rest(parts.drop_last(), sep) == Seq::<char>::empty());
    assert(join_rest(parts, sep) =~= sep + second);
    assert(first + (sep + second) =~= first + sep + second);
}

/// Joins `parts` with `sep`, as `[String]::join` does.
pub fn join_strings(parts: &Vec<String>, sep: &str) -> (joined: String)
    ensures
        joined@ == join(texts(parts@), sep@),
{
    let mut joined = String::new();
    let ghost all = texts(parts@);
    let mut i: usize = 0;
    while i < parts.len()
        invariant
            i <= parts.len(),
            all == texts(parts@),
            joined@ == join(all.take(i as int), sep@),
        decreases parts.len() - i,
    {
        proof {
            assert(all.take(i + 1).drop_last() =~= all.take(i as int));
            assert(all.take(i + 1).last() == parts@[i as int]@);
        }
        if i > 0 {
            joined.append(sep);
            proof {
                assert(all.take(i + 1)[0] == all.take(i as int)[0]);
                assert(all.take(i as int)[0] + join_rest(all.take(i as int), sep@) + sep@
                    + parts@[i as int]@ =~= all.take(i as int)[0] + (join_rest(
                    all.take(i as int),
                    sep@,
                ) + sep@ + parts@[i as int]@));
            }
        } else {
            proof {
                assert(join_rest(all.take(1), sep@) == Seq::<char>::empty());
                assert(Seq::<char>::empty() + parts@[0]@ =~= parts@[0]@ + Seq::<char>::empty());
            }
        }
        joined.append(parts[i].as_str());
        i += 1;
    }
    proof {
        assert(all.take(parts.len() as int) =~= all);
    }
    joined
}

/// `unit` repeated `count` times, as `str::repeat` gives it.
pub fn repeat_str(unit: &str, count: usize) -> (repeated: String)
    ensures
        repeated@ == repeat(unit@, count as nat),
{
    let mut repeated = String::new();
    let mut i: usize = 0;
    while i < count
        invariant
            i <= count,
            repeated@ == repeat(unit@, i as nat),
        decreases count - i,
    {
        repeated.append(unit);
        i += 1;
    }
    repeated
}

/// Whether two strings hold the same characters.
pub fn str_eq(a: &str, b: &str) -> (same: bool)
    ensures
        same == (a@ == b@),
{
    let x = a.as_bytes();
    let y = b.as_bytes();
    proof {
        // Equal encodings decode to equal texts.
        vstd::utf8::encode_utf8_decode_utf8(a@);
        vstd::utf8::encode_utf8_decode_utf8(b@);
    }
    if x.len() != y.len() {
        return false;
    }
    let mut i: usize = 0;
    while i < x.len()
        invariant
            i <= x.len(),
            x.len() == y.len(),
            x@ == a.spec_bytes(),
            y@ == b.spec_bytes(),
            forall|k: int| 0 <= k < i ==> x@[k] == y@[k],
        decreases x.len() - i,
    {
        if x[i] != y[i] {
            return false;
        }
        i += 1;
    }
    assert(x@ =~= y@);
    true
}

/// The characters of a string, in order.
pub fn chars_of(s: &str) -> (chars: Vec<char>)
    ensures
        chars@ == s@,
{
    let mut chars: Vec<char> = Vec::new();
    for c in it: s.chars()
        invariant
            it.seq() == s@,
            chars@ == it.seq().take(it.index() as int),
    {
        chars.push(c);
    }
    chars
}

} // verus!
