//! Lists of strings without repeats.
use vstd::prelude::*;
use crate::model::strs_view;

verus! {

/// The strings of `s` in order, each kept at its first occurrence only.
pub open spec fn dedupe(s: Seq<Seq<char>>) -> Seq<Seq<char>>
    decreases s.len(),
{
    if s.len() == 0 {
        s
    } else {
        let prev = dedupe(s.drop_last());
        if prev.contains(s.last()) {
            prev
        } else {
            prev.push(s.last())
        }
    }
}

/// `dedupe` keeps every string of `s` and adds none, and repeats none.
pub proof fn law_dedupe(s: Seq<Seq<char>>)
    ensures
        dedupe(s).no_duplicates(),
        forall|x: Seq<char>| dedupe(s).contains(x) <==> s.contains(x),
    decreases s.len(),
{
    if s.len() > 0 {
        law_dedupe(s.drop_last());
        let prev = dedupe(s.drop_last());
        assert forall|x: Seq<char>| dedupe(s).contains(x) <==> s.contains(x) by {
            if s.contains(x) {
                let i = choose|i: int| 0 <= i < s.len() && s[i] == x;
                if i < s.len() - 1 {
                    assert(s.drop_last()[i] == x);
                }
            }
            if s.drop_last().contains(x) {
                let i = choose|i: int| 0 <= i < s.drop_last().len() && s.drop_last()[i] == x;
                assert(s[i] == x);
            }
            if !prev.contains(s.last()) {
                if prev.push(s.last()).contains(x) {
                    let i = choose|i: int| 0 <= i < prev.push(s.last()).len() && prev.push(s.last())[i] == x;
                    if i < prev.len() {
                        assert(prev[i] == x);
                    }
                }
                if x == s.last() {
                    assert(prev.push(s.last())[prev.len() as int] == x);
                } else if prev.contains(x) {
                    let i = choose|i: int| 0 <= i < prev.len() && prev[i] == x;
                    assert(prev.push(s.last())[i] == x);
                }
            }
        }
    }
}

/// `s` holds a string equal to `x`.
pub fn contains_string(s: &Vec<String>, x: &String) -> (r: bool)
    ensures
        r == strs_view(s@).contains(x@),
{
    for i in 0..s.len()
        invariant
            forall|j: int| 0 <= j < i ==> s@[j]@ != x@,
    {
        if s[i] == *x {
            assert(strs_view(s@)[i as int] == x@);
            return true;
        }
    }
    assert(!strs_view(s@).contains(x@)) by {
        if strs_view(s@).contains(x@) {
            let j = choose|j: int| 0 <= j < strs_view(s@).len() && strs_view(s@)[j] == x@;
            assert(s@[j]@ == x@);
        }
    }
    false
}

/// Adds `x` to `list` unless the list holds it already.
pub fn push_unique(list: &mut Vec<String>, x: String)
    ensures
        strs_view(final(list)@) == if strs_view(old(list)@).contains(x@) {
            strs_view(old(list)@)
        } else {
            strs_view(old(list)@).push(x@)
        },
{
    if !contains_string(list, &x) {
        let ghost before = list@;
        list.push(x);
        assert(strs_view(list@) =~= strs_view(before).push(x@));
    }
}

/// The strings of `urls` in order, without repeats (`dedupe_urls`).
pub fn dedupe_urls(urls: Vec<String>) -> (r: Vec<String>)
    ensures
        strs_view(r@) == dedupe(strs_view(urls@)),
{
    let mut deduped: Vec<String> = Vec::new();
    let n = urls.len();
    let mut urls = urls;
    let ghost all = urls@;
    let mut i: usize = 0;
    while i < n
        invariant
            n == all.len(),
            i <= n,
            urls@ == all,
            strs_view(deduped@) == dedupe(strs_view(all.take(i as int))),
        decreases n - i,
    {
        let url = urls[i].clone();
        assert(strs_view(all.take(i + 1)).drop_last() =~= strs_view(all.take(i as int)));
        assert(strs_view(all.take(i + 1)).last() == all[i as int]@);
        push_unique(&mut deduped, url);
        i = i + 1;
    }
    assert(all.take(n as int) =~= all);
    deduped
}

} // verus!
