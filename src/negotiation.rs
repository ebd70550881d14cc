//! Codec choice and copying of codec lists.
use vstd::prelude::*;

verus! {

/// The first codec of `offered` that `local` also supports: the offering
/// side's preference order decides.
pub open spec fn first_common(offered: Seq<Seq<char>>, local: Seq<Seq<char>>) -> Option<Seq<char>>
    decreases offered.len(),
{
    if offered.len() == 0 {
        None
    } else if local.contains(offered[0]) {
        Some(offered[0])
    } else {
        first_common(offered.skip(1), local)
    }
}

/// The choice is supported by both sides, and no codec the offering side
/// prefers to it is supported locally; there is none only when the lists
/// share nothing.
pub proof fn lemma_first_common(offered: Seq<Seq<char>>, local: Seq<Seq<char>>)
    ensures
        first_common(offered, local) matches Some(c) ==> exists|i: int|
            0 <= i < offered.len() && offered[i] == c && local.contains(c) && forall|j: int|
                0 <= j < i ==> !local.contains(#[trigger] offered[j]),
        first_common(offered, local) is None ==> forall|i: int|
            0 <= i < offered.len() ==> !local.contains(#[trigger] offered[i]),
    decreases offered.len(),
{
    if offered.len() > 0 {
        let tail = offered.skip(1);
        lemma_first_common(tail, local);
        if !local.contains(offered[0]) {
            if let Some(c) = first_common(offered, local) {
                let i = choose|i: int|
                    0 <= i < tail.len() && tail[i] == c && local.contains(c) && forall|j: int|
                        0 <= j < i ==> !local.contains(#[trigger] tail[j]);
                assert(offered[i + 1] == c);
                assert forall|j: int| 0 <= j < i + 1 implies !local.contains(#[trigger] offered[j]) by {
                    if j > 0 {
                        assert(offered[j] == tail[j - 1]);
                    }
                }
            } else {
                assert forall|i: int| 0 <= i < offered.len() implies !local.contains(
                    #[trigger] offered[i],
                ) by {
                    if i > 0 {
                        assert(offered[i] == tail[i - 1]);
                    }
                }
            }
        } else {
            assert(offered[0] == offered[0]);
        }
    }
}

/// Whether `s` is one of `list`.
pub fn contains_str(list: &Vec<String>, s: &String) -> (r: bool)
    ensures
        r == list.deep_view().contains(s@),
{
    let ghost l = list.deep_view();
    let mut i: usize = 0;
    while i < list.len()
        invariant
            i <= list@.len(),
            l == list.deep_view(),
            l.len() == list@.len(),
            forall|j: int| 0 <= j < i ==> l[j] != s@,
        decreases list@.len() - i,
    {
        assert(l[i as int] == list@[i as int]@);
        if list[i] == *s {
            assert(l[i as int] == s@);
            return true;
        }
        i = i + 1;
    }
    false
}

/// Picks the codec: the first of `offered` that `local` supports.
pub fn negotiate_codec(offered: &Vec<String>, local: &Vec<String>) -> (r: Option<String>)
    ensures
        match r {
            Some(c) => first_common(offered.deep_view(), local.deep_view()) == Some(c@),
            None => first_common(offered.deep_view(), local.deep_view()) is None,
        },
{
    let ghost o = offered.deep_view();
    let ghost l = local.deep_view();
    let mut i: usize = 0;
    assert(o.skip(0) =~= o);
    while i < offered.len()
        invariant
            i <= offered@.len(),
            o == offered.deep_view(),
            l == local.deep_view(),
            o.len() == offered@.len(),
            first_common(o.skip(i as int), l) == first_common(o, l),
        decreases offered@.len() - i,
    {
        let ghost t = o.skip(i as int);
        assert(t[0] == o[i as int]);
        assert(o[i as int] == offered@[i as int]@);
        if contains_str(local, &offered[i]) {
            return Some(offered[i].clone());
        }
        assert(t.skip(1) =~= o.skip(i + 1));
        i = i + 1;
    }
    None
}

/// A copy of a list of strings.
pub fn copy_strings(v: &Vec<String>) -> (r: Vec<String>)
    ensures
        r.deep_view() == v.deep_view(),
{
    let mut out: Vec<String> = Vec::new();
    let mut i: usize = 0;
    while i < v.len()
        invariant
            i <= v@.len(),
            out.deep_view() == v.deep_view().take(i as int),
        decreases v@.len() - i,
    {
        let ghost before = out.deep_view();
        let c = v[i].clone();
        assert(c@ == v.deep_view()[i as int]);
        out.push(c);
        assert(out.deep_view() =~= before.push(c@));
        assert(out.deep_view() =~= v.deep_view().take(i + 1));
        i = i + 1;
    }
    assert(v.deep_view().take(i as int) =~= v.deep_view());
    out
}

} // verus!
