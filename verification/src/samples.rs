//! Keeping the sampled series and lists in shape: bounded histories, the
//! process list in order of memory use, and matching fresh samples to the
//! devices they belong to.
use vstd::prelude::*;
use vstd::string::*;

use crate::text::{join, join_strings, string_views};

verus! {

/// The number of samples a usage history keeps.
pub const HISTORY_SAMPLES: usize = 60;

/// Appends `sample` to a history and drops the oldest sample when the
/// history then holds more than `keep` samples.
pub fn push_sample<T>(history: &mut Vec<T>, sample: T, keep: usize)
    ensures
        old(history)@.len() + 1 > keep ==> final(history)@ == old(history)@.push(sample).drop_first(),
        old(history)@.len() + 1 <= keep ==> final(history)@ == old(history)@.push(sample),
{
    history.push(sample);
    if history.len() > keep {
        history.remove(0);
        assert(old(history)@.push(sample).remove(0) =~= old(history)@.push(sample).drop_first());
    }
}

proof fn lemma_filter_none<A>(s: Seq<A>, pred: spec_fn(A) -> bool)
    requires
        forall|j: int| 0 <= j < s.len() ==> !pred(#[trigger] s[j]),
    ensures
        s.filter(pred) == Seq::<A>::empty(),
    decreases s.len(),
{
    reveal(Seq::filter);
    if s.len() > 0 {
        let front = s.drop_last();
        assert forall|j: int| 0 <= j < front.len() implies !pred(#[trigger] front[j]) by {
            assert(front[j] == s[j]);
        }
        lemma_filter_none(front, pred);
        assert(!pred(s[s.len() - 1]));
    }
    assert(s.filter(pred) =~= Seq::<A>::empty());
}

/// Inserting an element at position `p` adds it to the end of the elements
/// that satisfy `pred` when no element from `p` on satisfies `pred`, and
/// changes nothing there when the element does not satisfy it.
pub proof fn lemma_filter_insert<A>(s: Seq<A>, p: int, x: A, pred: spec_fn(A) -> bool)
    requires
        0 <= p <= s.len(),
        pred(x) ==> forall|j: int| p <= j < s.len() ==> !pred(#[trigger] s[j]),
    ensures
        s.insert(p, x).filter(pred) == (if pred(x) { s.filter(pred).push(x) } else { s.filter(pred) }),
{
    let front = s.take(p);
    let back = s.skip(p);
    assert(s =~= front + back);
    assert(s.insert(p, x) =~= front.push(x) + back);
    Seq::<A>::filter_distributes_over_add(front, back, pred);
    Seq::<A>::filter_distributes_over_add(front.push(x), back, pred);
    front.lemma_filter_push(x, pred);
    if pred(x) {
        assert forall|j: int| 0 <= j < back.len() implies !pred(#[trigger] back[j]) by {
            assert(back[j] == s[p + j]);
        }
        lemma_filter_none(back, pred);
        assert(s.filter(pred) =~= front.filter(pred) + back.filter(pred));
        assert(front.filter(pred) + Seq::<A>::empty() =~= front.filter(pred));
        assert(front.filter(pred).push(x) + Seq::<A>::empty() =~= front.filter(pred).push(x));
    } else {
        assert(s.filter(pred) == front.filter(pred) + back.filter(pred));
    }
}

/// Removing the first element removes it from the front of the elements
/// that satisfy `pred`, if it satisfies `pred`.
pub proof fn lemma_filter_remove_first<A>(s: Seq<A>, pred: spec_fn(A) -> bool)
    requires
        s.len() > 0,
    ensures
        s.remove(0).filter(pred) == (if pred(s[0]) { s.filter(pred).drop_first() } else { s.filter(pred) }),
        pred(s[0]) ==> s.filter(pred).len() > 0 && s.filter(pred)[0] == s[0],
{
    let head = seq![s[0]];
    let tail = s.remove(0);
    assert(s =~= head + tail);
    Seq::<A>::filter_distributes_over_add(head, tail, pred);
    assert(head =~= Seq::<A>::empty().push(s[0]));
    Seq::<A>::empty().lemma_filter_push(s[0], pred);
    assert(Seq::<A>::empty().filter(pred) =~= Seq::<A>::empty()) by {
        reveal(Seq::filter);
    }
    assert(s.filter(pred) == head.filter(pred) + tail.filter(pred));
    if pred(s[0]) {
        assert(head.filter(pred) =~= seq![s[0]]);
        assert((seq![s[0]] + tail.filter(pred)).drop_first() =~= tail.filter(pred));
    } else {
        assert(head.filter(pred) =~= Seq::<A>::empty());
        assert(Seq::<A>::empty() + tail.filter(pred) =~= tail.filter(pred));
    }
}

/// The pairs of `s` whose key is `k`, in their order in `s`.
pub open spec fn with_key<T>(s: Seq<(u64, T)>, k: u64) -> Seq<(u64, T)> {
    s.filter(|pair: (u64, T)| pair.0 == k)
}

/// Whether the keys of the pairs never increase along the sequence.
pub open spec fn keys_descending<T>(s: Seq<(u64, T)>) -> bool {
    forall|i: int, j: int| 0 <= i < j < s.len() ==> (#[trigger] s[j]).0 <= (#[trigger] s[i]).0
}

/// The pairs in order of decreasing key; pairs with equal keys keep their
/// order (what a stable sort by the reversed key gives).
pub fn sort_by_key_descending<T>(items: Vec<(u64, T)>) -> (r: Vec<(u64, T)>)
    ensures
        r@.to_multiset() == items@.to_multiset(),
        keys_descending(r@),
        forall|k: u64| #[trigger] with_key(r@, k) == with_key(items@, k),
{
    broadcast use vstd::seq_lib::group_to_multiset_ensures;
    broadcast use vstd::multiset::group_multiset_axioms;

    let ghost input = items@;
    let mut rest = items;
    let mut out: Vec<(u64, T)> = Vec::new();
    while rest.len() > 0
        invariant
            out@.to_multiset().add(rest@.to_multiset()) == input.to_multiset(),
            keys_descending(out@),
            forall|k: u64| #[trigger] with_key(out@, k) + with_key(rest@, k) == with_key(input, k),
        decreases rest@.len(),
    {
        let ghost rest_before = rest@;
        let ghost out_before = out@;
        let item = rest.remove(0);
        let mut p: usize = 0;
        while p < out.len() && out[p].0 >= item.0
            invariant
                p <= out@.len(),
                out@ == out_before,
                forall|q: int| 0 <= q < p ==> (#[trigger] out@[q]).0 >= item.0,
            decreases out@.len() - p,
        {
            p = p + 1;
        }
        out.insert(p, item);
        proof {
            assert(out@ == out_before.insert(p as int, rest_before[0]));
            assert(rest@ == rest_before.remove(0));
            vstd::seq_lib::to_multiset_insert(out_before, p as int, rest_before[0]);
            vstd::seq_lib::to_multiset_remove(rest_before, 0);
            assert(rest_before.to_multiset().count(rest_before[0]) > 0) by {
                vstd::seq_lib::to_multiset_contains(rest_before, rest_before[0]);
                assert(rest_before.contains(rest_before[0])) by {
                    assert(rest_before[0] == rest_before[0]);
                }
            }
            assert(out@.to_multiset().add(rest@.to_multiset()) =~= out_before.to_multiset().add(
                rest_before.to_multiset(),
            ));
            assert forall|k: u64| #[trigger] with_key(out@, k) + with_key(rest@, k) == with_key(input, k) by {
                let pred = |pair: (u64, T)| pair.0 == k;
                let x = rest_before[0];
                if pred(x) {
                    assert forall|j: int| p <= j < out_before.len() implies !pred(#[trigger] out_before[j]) by {
                        if p < out_before.len() {
                            assert(out_before[p as int].0 < x.0);
                            assert(out_before[j].0 <= out_before[p as int].0);
                        }
                    }
                }
                lemma_filter_insert(out_before, p as int, x, pred);
                lemma_filter_remove_first(rest_before, pred);
                assert(with_key(out_before, k) + with_key(rest_before, k) == with_key(input, k));
                if pred(x) {
                    assert(with_key(out@, k) + with_key(rest@, k) =~= with_key(out_before, k) + with_key(rest_before, k));
                }
            }
            assert forall|i: int, j: int| 0 <= i < j < out@.len() implies (#[trigger] out@[j]).0
                <= (#[trigger] out@[i]).0 by {
                if j < p {
                    assert(out@[i] == out_before[i] && out@[j] == out_before[j]);
                } else if j == p {
                    assert(out@[i] == out_before[i]);
                } else if i < p {
                    assert(out@[i] == out_before[i] && out@[j] == out_before[j - 1]);
                } else if i == p {
                    assert(out@[j] == out_before[j - 1]);
                } else {
                    assert(out@[i] == out_before[i - 1] && out@[j] == out_before[j - 1]);
                }
            }
        }
    }
    assert(rest@.to_multiset() =~= vstd::multiset::Multiset::empty());
    assert(out@.to_multiset() =~= out@.to_multiset().add(rest@.to_multiset()));
    assert forall|k: u64| #[trigger] with_key(out@, k) == with_key(input, k) by {
        assert(rest@ =~= Seq::<(u64, T)>::empty());
        assert(with_key(rest@, k) =~= Seq::<(u64, T)>::empty()) by {
            reveal(Seq::filter);
        }
        assert(with_key(out@, k) + with_key(rest@, k) =~= with_key(out@, k));
    }
    out
}

/// The identity under which a device was first seen: its id, or its name
/// when it has no id.
pub open spec fn sample_matches(id: Seq<char>, name: Seq<char>, fresh: (Seq<char>, Seq<char>)) -> bool {
    if id.len() == 0 {
        fresh.1 == name
    } else {
        fresh.0 == id
    }
}

/// The position of the first fresh sample, given by id and name, that
/// belongs to the device with the given id and name: the same id, or the
/// same name when the device has no id.
pub fn matching_sample(id: &str, name: &str, fresh: &Vec<(String, String)>) -> (r: Option<usize>)
    ensures
        r matches Some(i) ==> i < fresh@.len() && sample_matches(id@, name@, (fresh@[i as int].0@, fresh@[i as int].1@))
            && forall|j: int| 0 <= j < i ==> !sample_matches(id@, name@, (#[trigger] fresh@[j].0@, fresh@[j].1@)),
        r is None ==> forall|j: int| 0 <= j < fresh@.len() ==> !sample_matches(id@, name@, (#[trigger] fresh@[j].0@, fresh@[j].1@)),
{
    let by_name = id.unicode_len() == 0;
    let mut i: usize = 0;
    while i < fresh.len()
        invariant
            i <= fresh@.len(),
            by_name == (id@.len() == 0),
            forall|j: int| 0 <= j < i ==> !sample_matches(id@, name@, (#[trigger] fresh@[j].0@, fresh@[j].1@)),
        decreases fresh@.len() - i,
    {
        let found = if by_name {
            crate::text::str_equal(fresh[i].1.as_str(), name)
        } else {
            crate::text::str_equal(fresh[i].0.as_str(), id)
        };
        if found {
            return Some(i);
        }
        i = i + 1;
    }
    None
}

/// How textwrap breaks `text` into lines at most `width` columns wide.
pub uninterp spec fn textwrap_lines(text: Seq<char>, width: usize) -> Seq<Seq<char>>;

/// Breaks `text` into lines of at most `width` columns.
/// Calls `textwrap::wrap` with the width as its options; its lines are
/// named `textwrap_lines`, a function of the text and the width alone.
#[verifier::external_body]
fn wrap_lines(text: &str, width: usize) -> (r: Vec<String>)
    ensures
        string_views(r@) == textwrap_lines(text@, width),
{
    textwrap::wrap(text, width).into_iter().map(|line| line.into_owned()).collect()
}

/// `text` broken into lines of at most `width` columns, joined by newlines.
pub fn wrap_text(text: &str, width: usize) -> (r: String)
    ensures
        r@ == join(textwrap_lines(text@, width), "\n"@),
{
    let lines = wrap_lines(text, width);
    join_strings(&lines, "\n")
}

} // verus!
