//! The bidirectional binding index: a map from command name to its bindings
//! and a mirror map from (controller, button) to the (command, run condition)
//! pairs claimed on that control. Every editing operation keeps the two maps
//! exact mirror images of one another.

use vstd::prelude::*;

use crate::bindings::{Binding, PButton, RunWhen};
use crate::kv::{
    find_key, has_key, idx_of, lemma_key_at, lemma_push_contains, lemma_push_entry,
    lemma_remove_entry, lemma_update_val, uniq_keys, val_of,
};

verus! {

/// The reverse index rows: pairs of a command name and the run condition
/// under which that command is bound to the row's control.
pub type BoundCommands = Vec<(String, RunWhen)>;

/// A pair list holds a (command, run condition) pair.
pub open spec fn pairs_has(ps: Seq<(String, RunWhen)>, c: Seq<char>, w: RunWhen) -> bool {
    exists|i: int| 0 <= i < ps.len() && (#[trigger] ps[i].0@) == c && ps[i].1 == w
}

/// No (command, run condition) pair occurs twice in a reverse-index row.
pub open spec fn uniq_pairs(ps: Seq<(String, RunWhen)>) -> bool {
    forall|i: int, j: int|
        0 <= i < j < ps.len() ==> !((#[trigger] ps[i].0@) == (#[trigger] ps[j].0@)
            && ps[i].1 == ps[j].1)
}

/// No binding occurs twice in a command's binding list.
pub open spec fn uniq_bindings(bs: Seq<Binding>) -> bool {
    forall|i: int, j: int| 0 <= i < j < bs.len() ==> bs[i] != bs[j]
}

/// The reverse index holds a row for control `k`.
pub open spec fn has_bkey(s: Seq<(PButton, BoundCommands)>, k: PButton) -> bool {
    exists|i: int| 0 <= i < s.len() && (#[trigger] s[i].0) == k
}

/// The index of the row for control `k`.
pub open spec fn bidx_of(s: Seq<(PButton, BoundCommands)>, k: PButton) -> int {
    choose|i: int| 0 <= i < s.len() && (#[trigger] s[i].0) == k
}

/// The row stored for control `k`.
pub open spec fn bval_of(s: Seq<(PButton, BoundCommands)>, k: PButton) -> BoundCommands {
    s[bidx_of(s, k)].1
}

/// No two rows of the reverse index share a control.
pub open spec fn uniq_bkeys(s: Seq<(PButton, BoundCommands)>) -> bool {
    forall|i: int, j: int| 0 <= i < j < s.len() ==> (#[trigger] s[i].0) != (#[trigger] s[j].0)
}

/// Under distinct controls, the row with control `k` at index `i` is the row
/// the lookup specs name.
pub proof fn lemma_bkey_at(s: Seq<(PButton, BoundCommands)>, k: PButton, i: int)
    requires
        uniq_bkeys(s),
        0 <= i < s.len(),
        s[i].0 == k,
    ensures
        has_bkey(s, k),
        bidx_of(s, k) == i,
        bval_of(s, k) == s[i].1,
{
    assert(has_bkey(s, k));
    let j = bidx_of(s, k);
    assert(0 <= j < s.len() && s[j].0 == k);
}

/// Replacing the row value at an index keeps every control and changes
/// exactly that row.
pub proof fn lemma_bupdate_val(s: Seq<(PButton, BoundCommands)>, i: int, v2: BoundCommands)
    requires
        uniq_bkeys(s),
        0 <= i < s.len(),
    ensures
        ({
            let s2 = s.update(i, (s[i].0, v2));
            &&& uniq_bkeys(s2)
            &&& forall|k: PButton| has_bkey(s2, k) == has_bkey(s, k)
            &&& has_bkey(s2, s[i].0)
            &&& bval_of(s2, s[i].0) == v2
            &&& forall|k: PButton|
                has_bkey(s, k) && k != s[i].0 ==> bval_of(s2, k) == bval_of(s, k)
        }),
{
    let s2 = s.update(i, (s[i].0, v2));
    assert(forall|j: int| 0 <= j < s.len() ==> (#[trigger] s2[j].0) == s[j].0);
    assert forall|k: PButton| has_bkey(s2, k) == has_bkey(s, k) by {
        if has_bkey(s2, k) {
            let j = choose|j: int| 0 <= j < s2.len() && (#[trigger] s2[j].0) == k;
            assert(s[j].0 == k);
        }
        if has_bkey(s, k) {
            let j = choose|j: int| 0 <= j < s.len() && (#[trigger] s[j].0) == k;
            assert(s2[j].0 == k);
        }
    }
    lemma_bkey_at(s2, s[i].0, i);
    assert forall|k: PButton|
        has_bkey(s, k) && k != s[i].0 implies bval_of(s2, k) == bval_of(s, k) by {
        let j = choose|j: int| 0 <= j < s.len() && (#[trigger] s[j].0) == k;
        lemma_bkey_at(s, k, j);
        lemma_bkey_at(s2, k, j);
    }
}

/// Appending a row with a fresh control keeps the old rows and adds one.
pub proof fn lemma_bpush_entry(s: Seq<(PButton, BoundCommands)>, key: PButton, v: BoundCommands)
    requires
        uniq_bkeys(s),
        !has_bkey(s, key),
    ensures
        ({
            let s2 = s.push((key, v));
            &&& uniq_bkeys(s2)
            &&& forall|k: PButton| has_bkey(s2, k) == (has_bkey(s, k) || k == key)
            &&& bval_of(s2, key) == v
            &&& forall|k: PButton| has_bkey(s, k) ==> bval_of(s2, k) == bval_of(s, k)
        }),
{
    let s2 = s.push((key, v));
    assert(forall|j: int| 0 <= j < s.len() ==> (#[trigger] s2[j].0) == s[j].0);
    assert(s2[s.len() as int].0 == key);
    assert forall|k: PButton| has_bkey(s2, k) == (has_bkey(s, k) || k == key) by {
        if has_bkey(s2, k) {
            let j = choose|j: int| 0 <= j < s2.len() && (#[trigger] s2[j].0) == k;
            if j < s.len() {
                assert(s[j].0 == k);
            }
        }
        if has_bkey(s, k) {
            let j = choose|j: int| 0 <= j < s.len() && (#[trigger] s[j].0) == k;
            assert(s2[j].0 == k);
        }
        if k == key {
            assert(s2[s.len() as int].0 == k);
        }
    }
    lemma_bkey_at(s2, key, s.len() as int);
    assert forall|k: PButton| has_bkey(s, k) implies bval_of(s2, k) == bval_of(s, k) by {
        let j = choose|j: int| 0 <= j < s.len() && (#[trigger] s[j].0) == k;
        lemma_bkey_at(s, k, j);
        lemma_bkey_at(s2, k, j);
    }
}

/// Membership among the (command, run condition) pairs of a row extended by
/// one pair.
pub proof fn lemma_pairs_push(ps: Seq<(String, RunWhen)>, q: (String, RunWhen))
    ensures
        forall|c: Seq<char>, w: RunWhen|
            #[trigger] pairs_has(ps.push(q), c, w) == (pairs_has(ps, c, w) || (c == q.0@ && w
                == q.1)),
{
    let s2 = ps.push(q);
    assert forall|c: Seq<char>, w: RunWhen|
        #[trigger] pairs_has(s2, c, w) == (pairs_has(ps, c, w) || (c == q.0@ && w == q.1)) by {
        if pairs_has(s2, c, w) {
            let i = choose|i: int| 0 <= i < s2.len() && (#[trigger] s2[i].0@) == c && s2[i].1 == w;
            if i < ps.len() {
                assert(pairs_has(ps, c, w));
            }
        }
        if pairs_has(ps, c, w) {
            let i = choose|i: int| 0 <= i < ps.len() && (#[trigger] ps[i].0@) == c && ps[i].1 == w;
            assert(s2[i].0@ == c && s2[i].1 == w);
        }
        if c == q.0@ && w == q.1 {
            assert(s2[ps.len() as int].0@ == c && s2[ps.len() as int].1 == w);
        }
    }
}

/// A binding list with every occurrence of `b` removed, order kept.
pub open spec fn without_binding(bs: Seq<Binding>, b: Binding) -> Seq<Binding> {
    bs.filter(|x: Binding| x != b)
}

/// What dropping `b` does to membership and duplicate-freedom.
pub proof fn lemma_without_binding(bs: Seq<Binding>, b: Binding)
    ensures
        forall|b2: Binding|
            #[trigger] without_binding(bs, b).contains(b2) == (bs.contains(b2) && b2 != b),
        uniq_bindings(bs) ==> uniq_bindings(without_binding(bs, b)),
    decreases bs.len(),
{
    reveal(Seq::filter);
    let out = without_binding(bs, b);
    if bs.len() == 0 {
        assert forall|b2: Binding| #[trigger] out.contains(b2) == (bs.contains(b2) && b2 != b)
        by {
            if out.contains(b2) {
                let i = choose|i: int| 0 <= i < out.len() && out[i] == b2;
            }
        }
    } else {
        let prefix = bs.drop_last();
        lemma_without_binding(prefix, b);
        let sub = without_binding(prefix, b);
        assert forall|b2: Binding| #[trigger] out.contains(b2) == (bs.contains(b2) && b2 != b)
        by {
            lemma_push_contains(prefix, bs.last(), b2);
            assert(prefix.push(bs.last()) =~= bs);
            if bs.last() != b {
                assert(out == sub.push(bs.last()));
                lemma_push_contains(sub, bs.last(), b2);
            } else {
                assert(out == sub);
            }
        }
        if uniq_bindings(bs) {
            assert(uniq_bindings(prefix));
            if bs.last() != b {
                assert(out == sub.push(bs.last()));
                assert(!prefix.contains(bs.last()));
                assert forall|x: int, y: int| 0 <= x < y < out.len() implies out[x] != out[y] by {
                    if y == out.len() - 1 {
                        assert(sub.contains(out[x]));
                        assert(prefix.contains(out[x]));
                    }
                }
            }
        }
    }
}

/// A reverse-index row with every occurrence of the pair (`c`, `w`) removed.
pub open spec fn without_pair(ps: Seq<(String, RunWhen)>, c: Seq<char>, w: RunWhen) -> Seq<
    (String, RunWhen),
> {
    ps.filter(|p: (String, RunWhen)| !(p.0@ == c && p.1 == w))
}

/// What dropping the pair (`c`, `w`) does to membership and
/// duplicate-freedom.
pub proof fn lemma_without_pair(ps: Seq<(String, RunWhen)>, c: Seq<char>, w: RunWhen)
    ensures
        forall|c2: Seq<char>, w2: RunWhen|
            #[trigger] pairs_has(without_pair(ps, c, w), c2, w2) == (pairs_has(ps, c2, w2) && !(
            c2 == c && w2 == w)),
        uniq_pairs(ps) ==> uniq_pairs(without_pair(ps, c, w)),
    decreases ps.len(),
{
    reveal(Seq::filter);
    let out = without_pair(ps, c, w);
    if ps.len() == 0 {
        assert forall|c2: Seq<char>, w2: RunWhen|
            #[trigger] pairs_has(out, c2, w2) == (pairs_has(ps, c2, w2) && !(c2 == c && w2 == w))
        by {
            if pairs_has(out, c2, w2) {
                let i = choose|i: int|
                    0 <= i < out.len() && (#[trigger] out[i].0@) == c2 && out[i].1 == w2;
            }
        }
    } else {
        let prefix = ps.drop_last();
        lemma_without_pair(prefix, c, w);
        let sub = without_pair(prefix, c, w);
        assert forall|c2: Seq<char>, w2: RunWhen|
            #[trigger] pairs_has(out, c2, w2) == (pairs_has(ps, c2, w2) && !(c2 == c && w2 == w))
        by {
            lemma_pairs_push(prefix, ps.last());
            assert(prefix.push(ps.last()) =~= ps);
            if !(ps.last().0@ == c && ps.last().1 == w) {
                assert(out == sub.push(ps.last()));
                lemma_pairs_push(sub, ps.last());
            } else {
                assert(out == sub);
            }
        }
        if uniq_pairs(ps) {
            assert(uniq_pairs(prefix));
            if !(ps.last().0@ == c && ps.last().1 == w) {
                assert(out == sub.push(ps.last()));
                assert(!pairs_has(prefix, ps.last().0@, ps.last().1));
                assert forall|x: int, y: int|
                    0 <= x < y < out.len() implies !(out[x].0@ == out[y].0@ && out[x].1
                    == out[y].1) by {
                    if y == out.len() - 1 {
                        assert(pairs_has(sub, out[x].0@, out[x].1));
                        assert(pairs_has(prefix, out[x].0@, out[x].1));
                    }
                }
            }
        }
    }
}

/// A reverse-index row with every pair naming command `c` removed.
pub open spec fn without_cmd(ps: Seq<(String, RunWhen)>, c: Seq<char>) -> Seq<(String, RunWhen)> {
    ps.filter(|p: (String, RunWhen)| p.0@ != c)
}

/// What scrubbing command `c` does to membership and duplicate-freedom.
pub proof fn lemma_without_cmd(ps: Seq<(String, RunWhen)>, c: Seq<char>)
    ensures
        forall|c2: Seq<char>, w2: RunWhen|
            #[trigger] pairs_has(without_cmd(ps, c), c2, w2) == (pairs_has(ps, c2, w2) && c2 != c),
        uniq_pairs(ps) ==> uniq_pairs(without_cmd(ps, c)),
    decreases ps.len(),
{
    reveal(Seq::filter);
    let out = without_cmd(ps, c);
    if ps.len() == 0 {
        assert forall|c2: Seq<char>, w2: RunWhen|
            #[trigger] pairs_has(out, c2, w2) == (pairs_has(ps, c2, w2) && c2 != c) by {
            if pairs_has(out, c2, w2) {
                let i = choose|i: int|
                    0 <= i < out.len() && (#[trigger] out[i].0@) == c2 && out[i].1 == w2;
            }
        }
    } else {
        let prefix = ps.drop_last();
        lemma_without_cmd(prefix, c);
        let sub = without_cmd(prefix, c);
        assert forall|c2: Seq<char>, w2: RunWhen|
            #[trigger] pairs_has(out, c2, w2) == (pairs_has(ps, c2, w2) && c2 != c) by {
            lemma_pairs_push(prefix, ps.last());
            assert(prefix.push(ps.last()) =~= ps);
            if ps.last().0@ != c {
                assert(out == sub.push(ps.last()));
                lemma_pairs_push(sub, ps.last());
            } else {
                assert(out == sub);
            }
        }
        if uniq_pairs(ps) {
            assert(uniq_pairs(prefix));
            if ps.last().0@ != c {
                assert(out == sub.push(ps.last()));
                assert(!pairs_has(prefix, ps.last().0@, ps.last().1));
                assert forall|x: int, y: int|
                    0 <= x < y < out.len() implies !(out[x].0@ == out[y].0@ && out[x].1
                    == out[y].1) by {
                    if y == out.len() - 1 {
                        assert(pairs_has(sub, out[x].0@, out[x].1));
                        assert(pairs_has(prefix, out[x].0@, out[x].1));
                    }
                }
            }
        }
    }
}

/// Drop every pair naming `command` from a row, in place.
fn remove_cmd_from(ps: &mut BoundCommands, command: &String)
    ensures
        final(ps)@ == without_cmd(old(ps)@, command@),
{
    let ghost orig = ps@;
    let mut out: BoundCommands = Vec::new();
    let mut i: usize = 0;
    proof {
        reveal(Seq::filter);
        assert(orig.take(0) =~= Seq::<(String, RunWhen)>::empty());
    }
    while i < ps.len()
        invariant
            i <= orig.len(),
            ps@ == orig,
            out@ == without_cmd(orig.take(i as int), command@),
        decreases orig.len() - i,
    {
        proof {
            reveal(Seq::filter);
            assert(orig.take(i as int + 1).drop_last() =~= orig.take(i as int));
            assert(orig.take(i as int + 1).last() == orig[i as int]);
        }
        if !(ps[i].0 == *command) {
            let p = (ps[i].0.clone(), ps[i].1);
            proof {
                assert(p =~= ps@[i as int]);
            }
            out.push(p);
        }
        i += 1;
    }
    proof {
        assert(orig.take(orig.len() as int) =~= orig);
    }
    *ps = out;
}

/// Rewrite every pair naming `from` to name `to`, in place, keeping order
/// and run conditions.
fn rename_in_pairs(ps: &mut BoundCommands, from: &String, to: &String)
    ensures
        final(ps)@.len() == old(ps)@.len(),
        forall|i: int|
            0 <= i < old(ps)@.len() ==> if old(ps)@[i].0@ == from@ {
                (#[trigger] final(ps)@[i]).0@ == to@ && final(ps)@[i].1 == old(ps)@[i].1
            } else {
                final(ps)@[i] == old(ps)@[i]
            },
{
    let ghost orig = ps@;
    let mut i: usize = 0;
    while i < ps.len()
        invariant
            i <= orig.len(),
            ps@.len() == orig.len(),
            forall|j: int|
                0 <= j < i ==> if orig[j].0@ == from@ {
                    (#[trigger] ps@[j]).0@ == to@ && ps@[j].1 == orig[j].1
                } else {
                    ps@[j] == orig[j]
                },
            forall|j: int| i <= j < orig.len() ==> (#[trigger] ps@[j]) == orig[j],
        decreases orig.len() - i,
    {
        if ps[i].0 == *from {
            ps[i].0 = to.clone();
        }
        i += 1;
    }
}

/// What the pair rewrite does to row membership, when no pair already names
/// the new command.
pub proof fn lemma_rename_pairs_membership(
    pre: Seq<(String, RunWhen)>,
    post: Seq<(String, RunWhen)>,
    from: Seq<char>,
    to: Seq<char>,
)
    requires
        from != to,
        forall|w: RunWhen| !(#[trigger] pairs_has(pre, to, w)),
        post.len() == pre.len(),
        forall|i: int|
            0 <= i < pre.len() ==> if pre[i].0@ == from {
                (#[trigger] post[i]).0@ == to && post[i].1 == pre[i].1
            } else {
                post[i] == pre[i]
            },
    ensures
        forall|c2: Seq<char>, w2: RunWhen|
            #[trigger] pairs_has(post, c2, w2) == if c2 == to {
                pairs_has(pre, from, w2)
            } else if c2 == from {
                false
            } else {
                pairs_has(pre, c2, w2)
            },
        uniq_pairs(pre) ==> uniq_pairs(post),
{
    assert forall|c2: Seq<char>, w2: RunWhen|
        #[trigger] pairs_has(post, c2, w2) == if c2 == to {
            pairs_has(pre, from, w2)
        } else if c2 == from {
            false
        } else {
            pairs_has(pre, c2, w2)
        } by {
        if pairs_has(post, c2, w2) {
            let i = choose|i: int|
                0 <= i < post.len() && (#[trigger] post[i].0@) == c2 && post[i].1 == w2;
            if pre[i].0@ == from {
                assert(c2 == to);
                assert(pairs_has(pre, from, w2));
            } else {
                assert(c2 != from);
                assert(pairs_has(pre, c2, w2));
                if c2 == to {
                    assert(pairs_has(pre, to, w2));
                    assert(false);
                }
            }
        }
        if c2 == to && pairs_has(pre, from, w2) {
            let i = choose|i: int|
                0 <= i < pre.len() && (#[trigger] pre[i].0@) == from && pre[i].1 == w2;
            assert(post[i].0@ == to && post[i].1 == w2);
        }
        if c2 != to && c2 != from && pairs_has(pre, c2, w2) {
            let i = choose|i: int|
                0 <= i < pre.len() && (#[trigger] pre[i].0@) == c2 && pre[i].1 == w2;
            assert(post[i].0@ == c2 && post[i].1 == w2);
        }
    }
    if uniq_pairs(pre) {
        assert forall|x: int, y: int|
            0 <= x < y < post.len() implies !((#[trigger] post[x].0@) == (#[trigger] post[y].0@)
            && post[x].1 == post[y].1) by {
            assert(!(pre[x].0@ == pre[y].0@ && pre[x].1 == pre[y].1));
            if pre[x].0@ == from && pre[y].0@ == from {
            } else if pre[x].0@ == from {
                assert(post[y] == pre[y]);
                if pre[y].0@ == to {
                    assert(pairs_has(pre, to, pre[y].1));
                    assert(false);
                }
            } else if pre[y].0@ == from {
                assert(post[x] == pre[x]);
                if pre[x].0@ == to {
                    assert(pairs_has(pre, to, pre[x].1));
                    assert(false);
                }
            } else {
                assert(post[x] == pre[x] && post[y] == pre[y]);
            }
        }
    }
}

/// Drop every occurrence of `b` from a binding list, in place.
fn remove_binding_from(bs: &mut Vec<Binding>, b: Binding)
    ensures
        final(bs)@ == without_binding(old(bs)@, b),
{
    let ghost orig = bs@;
    let mut out: Vec<Binding> = Vec::new();
    let mut i: usize = 0;
    proof {
        reveal(Seq::filter);
        assert(orig.take(0) =~= Seq::<Binding>::empty());
    }
    while i < bs.len()
        invariant
            i <= orig.len(),
            bs@ == orig,
            out@ == without_binding(orig.take(i as int), b),
        decreases orig.len() - i,
    {
        proof {
            reveal(Seq::filter);
            assert(orig.take(i as int + 1).drop_last() =~= orig.take(i as int));
            assert(orig.take(i as int + 1).last() == orig[i as int]);
        }
        if bs[i] != b {
            out.push(bs[i]);
        }
        i += 1;
    }
    proof {
        assert(orig.take(orig.len() as int) =~= orig);
    }
    *bs = out;
}

/// Drop every occurrence of the pair (`command`, `w`) from a row, in place.
fn remove_pair_from(ps: &mut BoundCommands, command: &String, w: RunWhen)
    ensures
        final(ps)@ == without_pair(old(ps)@, command@, w),
{
    let ghost orig = ps@;
    let mut out: BoundCommands = Vec::new();
    let mut i: usize = 0;
    proof {
        reveal(Seq::filter);
        assert(orig.take(0) =~= Seq::<(String, RunWhen)>::empty());
    }
    while i < ps.len()
        invariant
            i <= orig.len(),
            ps@ == orig,
            out@ == without_pair(orig.take(i as int), command@, w),
        decreases orig.len() - i,
    {
        proof {
            reveal(Seq::filter);
            assert(orig.take(i as int + 1).drop_last() =~= orig.take(i as int));
            assert(orig.take(i as int + 1).last() == orig[i as int]);
        }
        let keep = !(ps[i].0 == *command && ps[i].1 == w);
        if keep {
            let p = (ps[i].0.clone(), ps[i].1);
            proof {
                assert(p =~= ps@[i as int]);
            }
            out.push(p);
        }
        i += 1;
    }
    proof {
        assert(orig.take(orig.len() as int) =~= orig);
    }
    *ps = out;
}

/// Linear search for the reverse-index row of control `k`.
fn find_bkey(v: &Vec<(PButton, BoundCommands)>, k: PButton) -> (r: Option<usize>)
    ensures
        match r {
            Some(i) => i < v@.len() && v@[i as int].0 == k,
            None => !has_bkey(v@, k),
        },
{
    let mut i: usize = 0;
    while i < v.len()
        invariant
            i <= v@.len(),
            forall|j: int| 0 <= j < i ==> (#[trigger] v@[j].0) != k,
        decreases v@.len() - i,
    {
        if v[i].0.0 == k.0 && v[i].0.1 == k.1 {
            proof {
                assert(v@[i as int].0 =~= k);
            }
            return Some(i);
        }
        i += 1;
    }
    None
}

/// Does a binding list contain `b`?
fn contains_binding(bs: &Vec<Binding>, b: Binding) -> (r: bool)
    ensures
        r == bs@.contains(b),
{
    let mut i: usize = 0;
    while i < bs.len()
        invariant
            i <= bs@.len(),
            forall|j: int| 0 <= j < i ==> bs@[j] != b,
        decreases bs@.len() - i,
    {
        if bs[i] == b {
            return true;
        }
        i += 1;
    }
    false
}

/// The bidirectional index between commands and controls. Both maps are kept
/// in lockstep by the methods below; callers never touch one side alone.
#[derive(Debug)]
pub struct BindingsMap {
    pub command_to_bindings: Vec<(String, Vec<Binding>)>,
    pub binding_to_commands: Vec<(PButton, BoundCommands)>,
}

impl BindingsMap {
    /// The forward index as a sequence of entries.
    pub open spec fn fwd(self) -> Seq<(String, Vec<Binding>)> {
        self.command_to_bindings@
    }

    /// The reverse index as a sequence of rows.
    pub open spec fn rev(self) -> Seq<(PButton, BoundCommands)> {
        self.binding_to_commands@
    }

    /// The forward index records binding `b` for command `c`.
    pub open spec fn spec_has_binding(self, c: Seq<char>, b: Binding) -> bool {
        has_key(self.fwd(), c) && val_of(self.fwd(), c)@.contains(b)
    }

    /// The reverse index records, on `b`'s control, that command `c` is bound
    /// with `b`'s run condition.
    pub open spec fn spec_rev_has(self, c: Seq<char>, b: Binding) -> bool {
        has_bkey(self.rev(), (b.controller, b.button)) && pairs_has(
            bval_of(self.rev(), (b.controller, b.button))@,
            c,
            b.during,
        )
    }

    /// Command `c` has at least one binding.
    pub open spec fn spec_is_used(self, c: Seq<char>) -> bool {
        has_key(self.fwd(), c) && val_of(self.fwd(), c)@.len() > 0
    }

    /// The bindings recorded for command `c`, empty when `c` has no entry.
    pub open spec fn spec_bindings_for(self, c: Seq<char>) -> Seq<Binding> {
        if has_key(self.fwd(), c) {
            val_of(self.fwd(), c)@
        } else {
            Seq::empty()
        }
    }

    /// Well-formedness: keys are unique on both sides, no list holds a
    /// duplicate, and the two indices are mirror images: the forward index
    /// records binding `b` for command `c` exactly when the reverse index's
    /// row for `b`'s control holds the pair (`c`, `b`'s run condition).
    pub open spec fn wf(self) -> bool {
        &&& uniq_keys(self.fwd())
        &&& uniq_bkeys(self.rev())
        &&& forall|i: int| 0 <= i < self.fwd().len() ==> uniq_bindings(#[trigger] self.fwd()[i].1@)
        &&& forall|i: int| 0 <= i < self.rev().len() ==> uniq_pairs(#[trigger] self.rev()[i].1@)
        &&& forall|c: Seq<char>, b: Binding|
            #![trigger self.spec_has_binding(c, b)]
            #![trigger self.spec_rev_has(c, b)]
            self.spec_has_binding(c, b) == self.spec_rev_has(c, b)
    }

    /// An empty index.
    pub fn new() -> (r: Self)
        ensures
            r.wf(),
            r.fwd() == Seq::<(String, Vec<Binding>)>::empty(),
            r.rev() == Seq::<(PButton, BoundCommands)>::empty(),
    {
        BindingsMap { command_to_bindings: Vec::new(), binding_to_commands: Vec::new() }
    }

    /// The full effect of successfully inserting binding `b` for command `c`:
    /// `c` gains exactly `b` at the end of its list, everything else stays.
    pub open spec fn add_rel(pre: Self, post: Self, c: Seq<char>, b: Binding) -> bool {
        &&& forall|c2: Seq<char>, b2: Binding|
            #[trigger] post.spec_has_binding(c2, b2) == (pre.spec_has_binding(c2, b2) || (c2 == c
                && b2 == b))
        &&& post.spec_bindings_for(c) == pre.spec_bindings_for(c).push(b)
        &&& forall|c2: Seq<char>|
            c2 != c ==> #[trigger] post.spec_bindings_for(c2) == pre.spec_bindings_for(c2)
        &&& forall|c2: Seq<char>|
            #[trigger] has_key(post.fwd(), c2) == (has_key(pre.fwd(), c2) || c2 == c)
        &&& forall|k: PButton|
            #[trigger] has_bkey(post.rev(), k) == (has_bkey(pre.rev(), k) || k == (
                b.controller,
                b.button,
            ))
    }

    /// Record binding `binding` for command `command`. A pair already present
    /// is left alone (`false`); a new pair is appended to both indices
    /// (`true`).
    pub fn add_binding(&mut self, command: String, binding: Binding) -> (r: bool)
        requires
            old(self).wf(),
        ensures
            final(self).wf(),
            r == !old(self).spec_has_binding(command@, binding),
            !r ==> *final(self) == *old(self),
            r ==> Self::add_rel(*old(self), *final(self), command@, binding),
    {
        if self.has_binding(&command, binding) {
            return false;
        }
        let ghost pre = *self;
        let ghost c = command@;
        let ghost bkey = (binding.controller, binding.button);

        // Forward index: append to the command's list, or start one.
        match find_key(&self.command_to_bindings, &command) {
            Some(i) => {
                proof {
                    lemma_key_at(pre.fwd(), c, i as int);
                }
                self.command_to_bindings[i].1.push(binding);
                proof {
                    let fpre = pre.fwd();
                    let fpost = self.command_to_bindings@;
                    let nl = fpost[i as int].1;
                    assert(fpost[i as int] =~= (fpre[i as int].0, nl));
                    assert(fpost =~= fpre.update(i as int, (fpre[i as int].0, nl)));
                    lemma_update_val(fpre, i as int, nl);
                    assert(val_of(fpost, c)@ =~= pre.spec_bindings_for(c).push(binding));
                }
            }
            None => {
                let mut bs: Vec<Binding> = Vec::new();
                bs.push(binding);
                let key = command.clone();
                self.command_to_bindings.push((key, bs));
                proof {
                    lemma_push_entry(pre.fwd(), key, bs);
                    assert(val_of(self.command_to_bindings@, c)@ =~= pre.spec_bindings_for(
                        c,
                    ).push(binding));
                }
            }
        }
        proof {
            let fpre = pre.fwd();
            let fpost = self.command_to_bindings@;
            assert(uniq_keys(fpost));
            assert(forall|c2: Seq<char>|
                #[trigger] has_key(fpost, c2) == (has_key(fpre, c2) || c2 == c));
            assert(val_of(fpost, c)@ == pre.spec_bindings_for(c).push(binding));
            assert(forall|c2: Seq<char>|
                has_key(fpre, c2) && c2 != c ==> #[trigger] val_of(fpost, c2) == val_of(fpre, c2));
            // No duplicate appears: the appended binding was absent.
            assert forall|i: int| 0 <= i < fpost.len() implies uniq_bindings(
                #[trigger] fpost[i].1@,
            ) by {
                if fpost[i].0@ == c {
                    lemma_key_at(fpost, c, i);
                    assert(fpost[i].1@ == pre.spec_bindings_for(c).push(binding));
                    if has_key(fpre, c) {
                        let j = idx_of(fpre, c);
                        assert(uniq_bindings(fpre[j].1@));
                        assert(!fpre[j].1@.contains(binding));
                        assert forall|x: int, y: int|
                            0 <= x < y < fpost[i].1@.len() implies fpost[i].1@[x] != fpost[i].1@[y]
                        by {
                            if y == fpost[i].1@.len() - 1 {
                                assert(fpre[j].1@.contains(fpre[j].1@[x]));
                            }
                        }
                    }
                } else {
                    let j = choose|j: int|
                        0 <= j < fpre.len() && (#[trigger] fpre[j].0@) == fpost[i].0@;
                    lemma_key_at(fpre, fpost[i].0@, j);
                    assert(val_of(fpost, fpost[i].0@) == val_of(fpre, fpost[i].0@));
                    lemma_key_at(fpost, fpost[i].0@, i);
                    assert(fpost[i].1 == fpre[j].1);
                }
            }
        }

        // Reverse index: append to the control's row, or start one.
        let ghost rmid = *self;
        let ghost q_during = binding.during;
        match find_bkey(&self.binding_to_commands, (binding.controller, binding.button)) {
            Some(i) => {
                proof {
                    lemma_bkey_at(pre.rev(), bkey, i as int);
                }
                self.binding_to_commands[i].1.push((command, binding.during));
                proof {
                    let rpre = pre.rev();
                    let rpost = self.binding_to_commands@;
                    let nl = rpost[i as int].1;
                    assert(rpost[i as int] =~= (rpre[i as int].0, nl));
                    assert(rpost =~= rpre.update(i as int, (rpre[i as int].0, nl)));
                    lemma_bupdate_val(rpre, i as int, nl);
                    lemma_pairs_push(rpre[i as int].1@, (nl@[nl@.len() - 1]));
                    assert(nl@ == rpre[i as int].1@.push(nl@[nl@.len() - 1]));
                }
            }
            None => {
                let mut ps: BoundCommands = Vec::new();
                ps.push((command, binding.during));
                self.binding_to_commands.push(((binding.controller, binding.button), ps));
                proof {
                    let rpost = self.binding_to_commands@;
                    assert(rpost[rpost.len() - 1].0 =~= bkey);
                    assert(rpost =~= pre.rev().push((bkey, rpost[rpost.len() - 1].1)));
                    lemma_bpush_entry(pre.rev(), bkey, rpost[rpost.len() - 1].1);
                    lemma_pairs_push(Seq::<(String, RunWhen)>::empty(), ps@[0]);
                    assert(ps@ =~= Seq::<(String, RunWhen)>::empty().push(ps@[0]));
                }
            }
        }

        proof {
            let post = *self;
            let rpre = pre.rev();
            let rpost = post.rev();
            assert(uniq_bkeys(rpost));
            assert(forall|k: PButton|
                #[trigger] has_bkey(rpost, k) == (has_bkey(rpre, k) || k == bkey));
            // The new row's pairs: the old pairs plus exactly (command, during).
            assert(forall|c2: Seq<char>, w: RunWhen|
                #[trigger] pairs_has(bval_of(rpost, bkey)@, c2, w) == ((has_bkey(rpre, bkey)
                    && pairs_has(bval_of(rpre, bkey)@, c2, w)) || (c2 == c && w == q_during)));
            assert(forall|k: PButton|
                has_bkey(rpre, k) && k != bkey ==> #[trigger] bval_of(rpost, k) == bval_of(
                    rpre,
                    k,
                ));

            // The appended pair was not present: the pre mirror says so.
            assert(!pre.spec_has_binding(c, binding));
            assert(!pre.spec_rev_has(c, binding));

            // Row pair lists stay duplicate-free.
            assert forall|i: int| 0 <= i < rpost.len() implies uniq_pairs(
                #[trigger] rpost[i].1@,
            ) by {
                if rpost[i].0 == bkey {
                    lemma_bkey_at(rpost, bkey, i);
                    if has_bkey(rpre, bkey) {
                        let j = bidx_of(rpre, bkey);
                        assert(uniq_pairs(rpre[j].1@));
                        assert(!pairs_has(rpre[j].1@, c, q_during));
                        assert(rpost[i].1@ == rpre[j].1@.push(
                            rpost[i].1@[rpost[i].1@.len() - 1],
                        ));
                        let ql = rpost[i].1@;
                        assert(ql[ql.len() - 1].0@ == c && ql[ql.len() - 1].1 == q_during);
                        assert forall|x: int, y: int|
                            0 <= x < y < ql.len() implies !(ql[x].0@ == ql[y].0@ && ql[x].1
                            == ql[y].1) by {
                            if y == ql.len() - 1 {
                                assert(pairs_has(rpre[j].1@, ql[x].0@, ql[x].1));
                            }
                        }
                    } else {
                        assert(rpost[i].1@.len() == 1);
                    }
                } else {
                    let j = choose|j: int|
                        0 <= j < rpre.len() && (#[trigger] rpre[j].0) == rpost[i].0;
                    lemma_bkey_at(rpre, rpost[i].0, j);
                    lemma_bkey_at(rpost, rpost[i].0, i);
                    assert(rpost[i].1 == rpre[j].1);
                }
            }

            // Membership on both sides changed by exactly the one pair.
            assert forall|c2: Seq<char>, b2: Binding|
                #[trigger] post.spec_has_binding(c2, b2) == (pre.spec_has_binding(c2, b2) || (c2
                == c && b2 == binding)) by {
                lemma_push_contains(pre.spec_bindings_for(c), binding, b2);
                if c2 == c {
                    assert(post.spec_bindings_for(c) == pre.spec_bindings_for(c).push(binding));
                }
            }
            assert forall|c2: Seq<char>, b2: Binding|
                #[trigger] post.spec_rev_has(c2, b2) == (pre.spec_rev_has(c2, b2) || (c2 == c
                && b2 == binding)) by {
                let k2 = (b2.controller, b2.button);
                if k2 == bkey {
                    if c2 == c && b2.during == q_during {
                        assert(b2 =~= binding);
                    }
                } else {
                    assert(b2 != binding);
                }
            }
            assert forall|c2: Seq<char>, b2: Binding|
                #[trigger] post.spec_has_binding(c2, b2) == post.spec_rev_has(c2, b2) by {
                assert(pre.spec_has_binding(c2, b2) == pre.spec_rev_has(c2, b2));
            }
            assert forall|c2: Seq<char>|
                c2 != c implies #[trigger] post.spec_bindings_for(c2) == pre.spec_bindings_for(
                c2,
            ) by {}
        }
        true
    }

    /// The full effect of removing binding `b` from command `c`: the one pair
    /// disappears from both indices, keys on both sides stay.
    pub open spec fn remove_rel(pre: Self, post: Self, c: Seq<char>, b: Binding) -> bool {
        &&& forall|c2: Seq<char>, b2: Binding|
            #[trigger] post.spec_has_binding(c2, b2) == (pre.spec_has_binding(c2, b2) && !(c2 == c
                && b2 == b))
        &&& post.spec_bindings_for(c) == without_binding(pre.spec_bindings_for(c), b)
        &&& forall|c2: Seq<char>|
            c2 != c ==> #[trigger] post.spec_bindings_for(c2) == pre.spec_bindings_for(c2)
        &&& forall|c2: Seq<char>| #[trigger] has_key(post.fwd(), c2) == has_key(pre.fwd(), c2)
        &&& forall|k: PButton| #[trigger] has_bkey(post.rev(), k) == has_bkey(pre.rev(), k)
    }

    /// Remove binding `binding` from command `command`, on both indices.
    /// Callers must only hand in a pair known to exist.
    pub fn remove_binding(&mut self, command: &String, binding: Binding)
        requires
            old(self).wf(),
            old(self).spec_has_binding(command@, binding),
        ensures
            final(self).wf(),
            Self::remove_rel(*old(self), *final(self), command@, binding),
    {
        let ghost pre = *self;
        let ghost c = command@;
        let ghost bkey = (binding.controller, binding.button);

        // Forward index: filter the command's list.
        let fi = match find_key(&self.command_to_bindings, command) {
            Some(i) => i,
            None => {
                proof {
                    assert(false);
                }
                0
            }
        };
        proof {
            lemma_key_at(pre.fwd(), c, fi as int);
        }
        remove_binding_from(&mut self.command_to_bindings[fi].1, binding);
        proof {
            let fpre = pre.fwd();
            let fpost = self.command_to_bindings@;
            let nl = fpost[fi as int].1;
            assert(fpost[fi as int] =~= (fpre[fi as int].0, nl));
            assert(fpost =~= fpre.update(fi as int, (fpre[fi as int].0, nl)));
            lemma_update_val(fpre, fi as int, nl);
            lemma_without_binding(fpre[fi as int].1@, binding);
            // Each list stays duplicate-free.
            assert forall|i: int| 0 <= i < fpost.len() implies uniq_bindings(
                #[trigger] fpost[i].1@,
            ) by {
                if i == fi as int {
                    assert(uniq_bindings(fpre[i].1@));
                } else {
                    assert(fpost[i].1 == fpre[i].1);
                }
            }
        }

        // Reverse index: filter the control's row. The pre mirror guarantees
        // the row exists.
        proof {
            assert(pre.spec_rev_has(c, binding));
        }
        let ri = match find_bkey(&self.binding_to_commands, (binding.controller, binding.button)) {
            Some(i) => i,
            None => {
                proof {
                    assert(false);
                }
                0
            }
        };
        proof {
            lemma_bkey_at(pre.rev(), bkey, ri as int);
        }
        remove_pair_from(&mut self.binding_to_commands[ri].1, command, binding.during);
        proof {
            let post = *self;
            let rpre = pre.rev();
            let rpost = post.rev();
            let nl = rpost[ri as int].1;
            assert(rpost[ri as int] =~= (rpre[ri as int].0, nl));
            assert(rpost =~= rpre.update(ri as int, (rpre[ri as int].0, nl)));
            lemma_bupdate_val(rpre, ri as int, nl);
            lemma_without_pair(rpre[ri as int].1@, c, binding.during);
            assert forall|i: int| 0 <= i < rpost.len() implies uniq_pairs(
                #[trigger] rpost[i].1@,
            ) by {
                if i == ri as int {
                    assert(uniq_pairs(rpre[i].1@));
                } else {
                    assert(rpost[i].1 == rpre[i].1);
                }
            }

            // Membership on both sides drops exactly the one pair.
            assert forall|c2: Seq<char>, b2: Binding|
                #[trigger] post.spec_has_binding(c2, b2) == (pre.spec_has_binding(c2, b2) && !(
                c2 == c && b2 == binding)) by {
                lemma_without_binding(pre.spec_bindings_for(c), binding);
                if c2 == c {
                    assert(post.spec_bindings_for(c) == without_binding(
                        pre.spec_bindings_for(c),
                        binding,
                    ));
                }
            }
            assert forall|c2: Seq<char>, b2: Binding|
                #[trigger] post.spec_rev_has(c2, b2) == (pre.spec_rev_has(c2, b2) && !(c2 == c
                && b2 == binding)) by {
                let k2 = (b2.controller, b2.button);
                if k2 == bkey {
                    if c2 == c && b2.during == binding.during {
                        assert(b2 =~= binding);
                    }
                } else {
                    assert(b2 != binding);
                }
            }
            assert forall|c2: Seq<char>, b2: Binding|
                #[trigger] post.spec_has_binding(c2, b2) == post.spec_rev_has(c2, b2) by {
                assert(pre.spec_has_binding(c2, b2) == pre.spec_rev_has(c2, b2));
            }
        }
    }

    /// The full effect of deleting command `c`: its forward entry and every
    /// reverse-index pair naming it disappear; controls and other commands
    /// stay.
    pub open spec fn remove_cmd_rel(pre: Self, post: Self, c: Seq<char>) -> bool {
        &&& forall|c2: Seq<char>, b2: Binding|
            #[trigger] post.spec_has_binding(c2, b2) == (pre.spec_has_binding(c2, b2) && c2 != c)
        &&& !has_key(post.fwd(), c)
        &&& forall|c2: Seq<char>|
            c2 != c ==> #[trigger] has_key(post.fwd(), c2) == has_key(pre.fwd(), c2)
        &&& forall|c2: Seq<char>|
            c2 != c ==> #[trigger] post.spec_bindings_for(c2) == pre.spec_bindings_for(c2)
        &&& forall|k: PButton| #[trigger] has_bkey(post.rev(), k) == has_bkey(pre.rev(), k)
    }

    /// Delete command `command` entirely: drop its forward entry and scrub
    /// every reverse-index row of pairs naming it.
    pub fn remove_command(&mut self, command: &String)
        requires
            old(self).wf(),
        ensures
            final(self).wf(),
            Self::remove_cmd_rel(*old(self), *final(self), command@),
    {
        let ghost pre = *self;
        let ghost c = command@;

        // Forward index: drop the entry if present.
        match find_key(&self.command_to_bindings, command) {
            Some(i) => {
                proof {
                    lemma_key_at(pre.fwd(), c, i as int);
                }
                self.command_to_bindings.remove(i);
                proof {
                    lemma_remove_entry(pre.fwd(), i as int);
                    let fpre = pre.fwd();
                    let fpost = self.command_to_bindings@;
                    assert forall|t: int| 0 <= t < fpost.len() implies uniq_bindings(
                        #[trigger] fpost[t].1@,
                    ) by {
                        if t < i as int {
                            assert(fpost[t] == fpre[t]);
                        } else {
                            assert(fpost[t] == fpre[t + 1]);
                        }
                    }
                }
            }
            None => {}
        }
        proof {
            let fpre = pre.fwd();
            let fpost = self.command_to_bindings@;
            assert(uniq_keys(fpost));
            assert(!has_key(fpost, c));
            assert(forall|c2: Seq<char>|
                c2 != c ==> #[trigger] has_key(fpost, c2) == has_key(fpre, c2));
            assert(forall|c2: Seq<char>|
                has_key(fpre, c2) && c2 != c ==> #[trigger] val_of(fpost, c2) == val_of(
                    fpre,
                    c2,
                ));
        }

        // Reverse index: scrub every row.
        let ghost rpre = pre.rev();
        let ghost fpost = self.command_to_bindings@;
        let mut j: usize = 0;
        while j < self.binding_to_commands.len()
            invariant
                self.binding_to_commands@.len() == rpre.len(),
                j <= rpre.len(),
                forall|t: int|
                    0 <= t < j ==> (#[trigger] self.binding_to_commands@[t]).0 == rpre[t].0
                        && self.binding_to_commands@[t].1@ == without_cmd(rpre[t].1@, command@),
                forall|t: int|
                    j <= t < rpre.len() ==> (#[trigger] self.binding_to_commands@[t]) == rpre[t],
                self.command_to_bindings@ == fpost,
            decreases rpre.len() - j,
        {
            let ghost before = self.binding_to_commands@;
            proof {
                assert(before[j as int] == rpre[j as int]);
            }
            remove_cmd_from(&mut self.binding_to_commands[j].1, command);
            proof {
                let after = self.binding_to_commands@;
                assert(after[j as int].0 == before[j as int].0);
                assert(after[j as int].1@ == without_cmd(rpre[j as int].1@, command@));
                assert(forall|t: int|
                    0 <= t < rpre.len() && t != j ==> (#[trigger] after[t]) == before[t]);
            }
            j += 1;
        }

        proof {
            let post = *self;
            let rpost = post.rev();
            assert(post.fwd() == fpost);
            assert(forall|t: int| 0 <= t < rpre.len() ==> (#[trigger] rpost[t]).0 == rpre[t].0);
            assert forall|k: PButton| #[trigger] has_bkey(rpost, k) == has_bkey(rpre, k) by {
                if has_bkey(rpost, k) {
                    let t = choose|t: int| 0 <= t < rpost.len() && (#[trigger] rpost[t].0) == k;
                    assert(rpre[t].0 == k);
                }
                if has_bkey(rpre, k) {
                    let t = choose|t: int| 0 <= t < rpre.len() && (#[trigger] rpre[t].0) == k;
                    assert(rpost[t].0 == k);
                }
            }
            assert(uniq_bkeys(rpost));
            assert forall|t: int| 0 <= t < rpost.len() implies uniq_pairs(
                #[trigger] rpost[t].1@,
            ) by {
                lemma_without_cmd(rpre[t].1@, c);
            }
            // Row-level membership, lifted to the whole reverse index.
            assert forall|c2: Seq<char>, b2: Binding|
                #[trigger] post.spec_rev_has(c2, b2) == (pre.spec_rev_has(c2, b2) && c2 != c) by {
                let k2 = (b2.controller, b2.button);
                if has_bkey(rpre, k2) {
                    let t = choose|t: int| 0 <= t < rpre.len() && (#[trigger] rpre[t].0) == k2;
                    lemma_bkey_at(rpre, k2, t);
                    lemma_bkey_at(rpost, k2, t);
                    lemma_without_cmd(rpre[t].1@, c);
                }
            }
            assert forall|c2: Seq<char>, b2: Binding|
                #[trigger] post.spec_has_binding(c2, b2) == (pre.spec_has_binding(c2, b2) && c2
                != c) by {}
            assert forall|c2: Seq<char>, b2: Binding|
                #[trigger] post.spec_has_binding(c2, b2) == post.spec_rev_has(c2, b2) by {
                assert(pre.spec_has_binding(c2, b2) == pre.spec_rev_has(c2, b2));
            }
        }
    }

    /// The full effect of renaming command `from` to the fresh name `to`:
    /// `to` takes over `from`'s binding list on both indices, everything
    /// else stays.
    pub open spec fn rename_rel(pre: Self, post: Self, from: Seq<char>, to: Seq<char>) -> bool {
        &&& forall|c2: Seq<char>, b2: Binding|
            #[trigger] post.spec_has_binding(c2, b2) == if c2 == to {
                pre.spec_has_binding(from, b2)
            } else if c2 == from {
                false
            } else {
                pre.spec_has_binding(c2, b2)
            }
        &&& post.spec_bindings_for(to) == pre.spec_bindings_for(from)
        &&& post.spec_bindings_for(from) == Seq::<Binding>::empty()
        &&& forall|c2: Seq<char>|
            c2 != from && c2 != to ==> #[trigger] post.spec_bindings_for(c2)
                == pre.spec_bindings_for(c2)
        &&& forall|c2: Seq<char>|
            #[trigger] has_key(post.fwd(), c2) == ((has_key(pre.fwd(), c2) && c2 != from) || c2
                == to)
        &&& forall|k: PButton| #[trigger] has_bkey(post.rev(), k) == has_bkey(pre.rev(), k)
    }

    /// Move command `from`'s bindings under the new name `to`, rewriting the
    /// reverse index to match. Callers must first rule out a clash with an
    /// existing entry.
    pub fn rename_binding(&mut self, from: &String, to: String)
        requires
            old(self).wf(),
            has_key(old(self).fwd(), from@),
            !has_key(old(self).fwd(), to@),
        ensures
            final(self).wf(),
            Self::rename_rel(*old(self), *final(self), from@, to@),
    {
        let ghost pre = *self;
        let ghost fromv = from@;
        let ghost tov = to@;
        proof {
            assert(fromv != tov);
        }

        // Forward index: rename the entry's key in place.
        let fi = match find_key(&self.command_to_bindings, from) {
            Some(i) => i,
            None => {
                proof {
                    assert(false);
                }
                0
            }
        };
        proof {
            lemma_key_at(pre.fwd(), fromv, fi as int);
        }
        let to_key = to.clone();
        self.command_to_bindings[fi].0 = to_key;
        proof {
            let fpre = pre.fwd();
            let fpost = self.command_to_bindings@;
            assert(fpost[fi as int] =~= (fpost[fi as int].0, fpre[fi as int].1));
            assert(fpost =~= fpre.update(fi as int, (fpost[fi as int].0, fpre[fi as int].1)));
            crate::kv::lemma_rename_key(fpre, fi as int, fpost[fi as int].0);
            assert forall|t: int| 0 <= t < fpost.len() implies uniq_bindings(
                #[trigger] fpost[t].1@,
            ) by {
                assert(fpost[t].1 == fpre[t].1);
            }
        }

        // Reverse index: rewrite every row's pairs.
        let ghost rpre = pre.rev();
        proof {
            // No row holds a pair naming `to`: the pre mirror would put `to`
            // in the forward index.
            assert forall|t: int, w: RunWhen|
                0 <= t < rpre.len() implies !(#[trigger] pairs_has(rpre[t].1@, tov, w)) by {
                lemma_bkey_at(rpre, rpre[t].0, t);
                let b2 = Binding { controller: rpre[t].0.0, button: rpre[t].0.1, during: w };
                assert(!pre.spec_has_binding(tov, b2));
                assert(!pre.spec_rev_has(tov, b2));
                assert((b2.controller, b2.button) =~= rpre[t].0);
            }
        }
        let ghost fpost = self.command_to_bindings@;
        let mut j: usize = 0;
        while j < self.binding_to_commands.len()
            invariant
                self.binding_to_commands@.len() == rpre.len(),
                j <= rpre.len(),
                forall|t: int|
                    0 <= t < j ==> {
                        let row = #[trigger] self.binding_to_commands@[t];
                        &&& row.0 == rpre[t].0
                        &&& row.1@.len() == rpre[t].1@.len()
                        &&& forall|p: int|
                            0 <= p < rpre[t].1@.len() ==> if rpre[t].1@[p].0@ == from@ {
                                (#[trigger] row.1@[p]).0@ == to@ && row.1@[p].1 == rpre[t].1@[p].1
                            } else {
                                row.1@[p] == rpre[t].1@[p]
                            }
                    },
                forall|t: int|
                    j <= t < rpre.len() ==> (#[trigger] self.binding_to_commands@[t]) == rpre[t],
                self.command_to_bindings@ == fpost,
            decreases rpre.len() - j,
        {
            let ghost before = self.binding_to_commands@;
            proof {
                assert(before[j as int] == rpre[j as int]);
            }
            rename_in_pairs(&mut self.binding_to_commands[j].1, from, &to);
            proof {
                let after = self.binding_to_commands@;
                assert(after[j as int].0 == before[j as int].0);
                assert(after[j as int].1@.len() == rpre[j as int].1@.len());
                assert(forall|t: int|
                    0 <= t < rpre.len() && t != j ==> (#[trigger] after[t]) == before[t]);
            }
            j += 1;
        }

        proof {
            let post = *self;
            let rpost = post.rev();
            assert(post.fwd() == fpost);
            assert(forall|t: int| 0 <= t < rpre.len() ==> (#[trigger] rpost[t]).0 == rpre[t].0);
            assert forall|k: PButton| #[trigger] has_bkey(rpost, k) == has_bkey(rpre, k) by {
                if has_bkey(rpost, k) {
                    let t = choose|t: int| 0 <= t < rpost.len() && (#[trigger] rpost[t].0) == k;
                    assert(rpre[t].0 == k);
                }
                if has_bkey(rpre, k) {
                    let t = choose|t: int| 0 <= t < rpre.len() && (#[trigger] rpre[t].0) == k;
                    assert(rpost[t].0 == k);
                }
            }
            assert(uniq_bkeys(rpost));
            assert forall|t: int| 0 <= t < rpost.len() implies uniq_pairs(
                #[trigger] rpost[t].1@,
            ) by {
                lemma_rename_pairs_membership(rpre[t].1@, rpost[t].1@, fromv, tov);
            }
            assert forall|c2: Seq<char>, b2: Binding|
                #[trigger] post.spec_rev_has(c2, b2) == if c2 == tov {
                    pre.spec_rev_has(fromv, b2)
                } else if c2 == fromv {
                    false
                } else {
                    pre.spec_rev_has(c2, b2)
                } by {
                let k2 = (b2.controller, b2.button);
                if has_bkey(rpre, k2) {
                    let t = choose|t: int| 0 <= t < rpre.len() && (#[trigger] rpre[t].0) == k2;
                    lemma_bkey_at(rpre, k2, t);
                    lemma_bkey_at(rpost, k2, t);
                    lemma_rename_pairs_membership(rpre[t].1@, rpost[t].1@, fromv, tov);
                }
            }
            assert forall|c2: Seq<char>, b2: Binding|
                #[trigger] post.spec_has_binding(c2, b2) == if c2 == tov {
                    pre.spec_has_binding(fromv, b2)
                } else if c2 == fromv {
                    false
                } else {
                    pre.spec_has_binding(c2, b2)
                } by {}
            assert forall|c2: Seq<char>, b2: Binding|
                #[trigger] post.spec_has_binding(c2, b2) == post.spec_rev_has(c2, b2) by {
                if c2 == tov {
                    assert(pre.spec_has_binding(fromv, b2) == pre.spec_rev_has(fromv, b2));
                } else if c2 != fromv {
                    assert(pre.spec_has_binding(c2, b2) == pre.spec_rev_has(c2, b2));
                }
            }
        }
    }

    /// Does the raw forward list hold the pair (`c`, `b`)?
    pub open spec fn list_has_pair(
        s: Seq<(String, Vec<Binding>)>,
        c: Seq<char>,
        b: Binding,
    ) -> bool {
        exists|x: int, y: int|
            0 <= x < s.len() && 0 <= y < s[x].1@.len() && s[x].0@ == c && (#[trigger] s[x].1@[y])
                == b
    }

    /// Rebuild a bidirectional index from a raw command-to-bindings list, as
    /// read from a profile document. Entries are inserted pairwise, so a
    /// malformed list (repeated keys, repeated bindings) still yields a
    /// well-formed index holding exactly the listed pairs.
    pub fn from_forward(list: &Vec<(String, Vec<Binding>)>) -> (r: BindingsMap)
        ensures
            r.wf(),
            forall|c: Seq<char>, b: Binding|
                #[trigger] r.spec_has_binding(c, b) == Self::list_has_pair(list@, c, b),
    {
        let ghost s = list@;
        let mut r = BindingsMap::new();
        proof {
            assert forall|c: Seq<char>, b: Binding|
                #[trigger] r.spec_has_binding(c, b) == Self::list_has_pair(s.take(0), c, b) by {
                assert(!has_key(r.fwd(), c));
            }
        }
        let mut i: usize = 0;
        while i < list.len()
            invariant
                i <= s.len(),
                list@ == s,
                r.wf(),
                forall|c: Seq<char>, b: Binding|
                    #[trigger] r.spec_has_binding(c, b) == Self::list_has_pair(s.take(i as int), c, b),
            decreases s.len() - i,
        {
            let entry_len = list[i].1.len();
            let mut j: usize = 0;
            while j < entry_len
                invariant
                    i < s.len(),
                    j <= s[i as int].1@.len(),
                    entry_len == s[i as int].1@.len(),
                    list@ == s,
                    r.wf(),
                    forall|c: Seq<char>, b: Binding|
                        #[trigger] r.spec_has_binding(c, b) == (Self::list_has_pair(
                            s.take(i as int),
                            c,
                            b,
                        ) || (s[i as int].0@ == c && s[i as int].1@.take(j as int).contains(b))),
                decreases entry_len - j,
            {
                let ghost rp = r;
                let cmd = list[i].0.clone();
                let b = list[i].1[j];
                r.add_binding(cmd, b);
                proof {
                    assert forall|c: Seq<char>, b2: Binding|
                        #[trigger] r.spec_has_binding(c, b2) == (Self::list_has_pair(
                            s.take(i as int),
                            c,
                            b2,
                        ) || (s[i as int].0@ == c && s[i as int].1@.take(j as int + 1).contains(
                            b2,
                        ))) by {
                        assert(r.spec_has_binding(c, b2) == (rp.spec_has_binding(c, b2) || (c
                            == cmd@ && b2 == b)));
                        lemma_push_contains(s[i as int].1@.take(j as int), b, b2);
                        assert(s[i as int].1@.take(j as int + 1) =~= s[i as int].1@.take(
                            j as int,
                        ).push(b));
                    }
                }
                j += 1;
            }
            proof {
                assert forall|c: Seq<char>, b2: Binding|
                    #[trigger] r.spec_has_binding(c, b2) == Self::list_has_pair(
                        s.take(i as int + 1),
                        c,
                        b2,
                    ) by {
                    assert(s[i as int].1@.take(entry_len as int) =~= s[i as int].1@);
                    // Fold one finished entry into the prefix form.
                    if Self::list_has_pair(s.take(i as int), c, b2) {
                        let (x, y) = choose|x: int, y: int|
                            0 <= x < s.take(i as int).len() && 0 <= y < s.take(
                                i as int,
                            )[x].1@.len() && s.take(i as int)[x].0@ == c && (#[trigger] s.take(
                                i as int,
                            )[x].1@[y]) == b2;
                        assert(s.take(i as int + 1)[x].0@ == c && s.take(i as int + 1)[x].1@[y]
                            == b2);
                        assert(Self::list_has_pair(s.take(i as int + 1), c, b2));
                    }
                    if s[i as int].0@ == c && s[i as int].1@.contains(b2) {
                        let y = choose|y: int|
                            0 <= y < s[i as int].1@.len() && s[i as int].1@[y] == b2;
                        assert(s.take(i as int + 1)[i as int].0@ == c && s.take(
                            i as int + 1,
                        )[i as int].1@[y] == b2);
                        assert(Self::list_has_pair(s.take(i as int + 1), c, b2));
                    }
                    if Self::list_has_pair(s.take(i as int + 1), c, b2) {
                        let (x, y) = choose|x: int, y: int|
                            0 <= x < s.take(i as int + 1).len() && 0 <= y < s.take(
                                i as int + 1,
                            )[x].1@.len() && s.take(i as int + 1)[x].0@ == c && (#[trigger] s.take(
                                i as int + 1,
                            )[x].1@[y]) == b2;
                        if x < i as int {
                            assert(s.take(i as int)[x].0@ == c && s.take(i as int)[x].1@[y]
                                == b2);
                            assert(Self::list_has_pair(s.take(i as int), c, b2));
                        } else {
                            assert(s[i as int].1@.contains(b2));
                        }
                    }
                }
            }
            i += 1;
        }
        proof {
            assert(s.take(s.len() as int) =~= s);
        }
        r
    }

    /// Does command `command` have binding `binding`?
    pub fn has_binding(&self, command: &String, binding: Binding) -> (r: bool)
        requires
            self.wf(),
        ensures
            r == self.spec_has_binding(command@, binding),
    {
        match find_key(&self.command_to_bindings, command) {
            Some(i) => {
                proof {
                    lemma_key_at(self.fwd(), command@, i as int);
                }
                contains_binding(&self.command_to_bindings[i].1, binding)
            }
            None => false,
        }
    }

    /// Is any command bound on control `button`? True as soon as the reverse
    /// index has a row for the control, even one whose list has emptied.
    pub fn has_button(&self, button: PButton) -> (r: bool)
        ensures
            r == has_bkey(self.rev(), button),
    {
        find_bkey(&self.binding_to_commands, button).is_some()
    }

    /// Does command `command` still have at least one binding?
    pub fn is_used(&self, command: &String) -> (r: bool)
        requires
            self.wf(),
        ensures
            r == self.spec_is_used(command@),
    {
        match find_key(&self.command_to_bindings, command) {
            Some(i) => {
                proof {
                    lemma_key_at(self.fwd(), command@, i as int);
                }
                self.command_to_bindings[i].1.len() > 0
            }
            None => false,
        }
    }

    /// A copy of the bindings recorded for `command`, possibly empty.
    pub fn bindings_for_command(&self, command: &String) -> (r: Vec<Binding>)
        requires
            self.wf(),
        ensures
            r@ == self.spec_bindings_for(command@),
    {
        match find_key(&self.command_to_bindings, command) {
            Some(i) => {
                proof {
                    lemma_key_at(self.fwd(), command@, i as int);
                }
                let mut out: Vec<Binding> = Vec::new();
                let bs = &self.command_to_bindings[i].1;
                let mut j: usize = 0;
                while j < bs.len()
                    invariant
                        j <= bs@.len(),
                        out@ == bs@.take(j as int),
                    decreases bs@.len() - j,
                {
                    out.push(bs[j]);
                    proof {
                        assert(out@ =~= bs@.take(j as int + 1));
                    }
                    j += 1;
                }
                proof {
                    assert(out@ =~= bs@);
                }
                out
            }
            None => Vec::new(),
        }
    }
}

/// Bidirectional index consistency: in every well-formed map — and every
/// editing operation above returns a well-formed map — a command has a
/// binding exactly when the reverse index's row for that binding's control
/// holds the (command, run condition) pair.
pub proof fn lemma_bidirectional_consistency(m: BindingsMap, c: Seq<char>, b: Binding)
    requires
        m.wf(),
    ensures
        m.spec_has_binding(c, b) == m.spec_rev_has(c, b),
{
}

/// Adding an identical (command, binding) pair a second time reports no
/// insertion and leaves the map exactly as the first call left it.
pub proof fn lemma_add_binding_idempotent(
    m0: BindingsMap,
    m1: BindingsMap,
    m2: BindingsMap,
    c: Seq<char>,
    b: Binding,
    r1: bool,
    r2: bool,
)
    requires
        m0.wf(),
        r1 == !m0.spec_has_binding(c, b),
        !r1 ==> m1 == m0,
        r1 ==> BindingsMap::add_rel(m0, m1, c, b),
        r2 == !m1.spec_has_binding(c, b),
        !r2 ==> m2 == m1,
        r2 ==> BindingsMap::add_rel(m1, m2, c, b),
    ensures
        r2 == false,
        m2 == m1,
{
    if r1 {
        assert(m1.spec_has_binding(c, b));
    }
}

/// Renaming a command hands its whole binding list, unchanged and in order,
/// to the new name, and leaves the old name without bindings.
pub proof fn lemma_rename_preserves_bindings(
    m0: BindingsMap,
    m1: BindingsMap,
    from: Seq<char>,
    to: Seq<char>,
)
    requires
        m0.wf(),
        BindingsMap::rename_rel(m0, m1, from, to),
    ensures
        m1.spec_bindings_for(to) == m0.spec_bindings_for(from),
        m1.spec_bindings_for(from) == Seq::<Binding>::empty(),
{
}

} // verus!
