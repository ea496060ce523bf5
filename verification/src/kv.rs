//! Association lists keyed by strings. The editor's maps (command to
//! bindings, stream to axis, object fields of the constant tree) are vectors
//! of key/value pairs with pairwise-distinct keys; these helpers give them
//! their map reading in specifications and the shared lookup loop.

use vstd::prelude::*;

verus! {

/// The sequence holds an entry whose key reads as `k`.
pub open spec fn has_key<V>(s: Seq<(String, V)>, k: Seq<char>) -> bool {
    exists|i: int| 0 <= i < s.len() && #[trigger] s[i].0@ == k
}

/// The index of the entry for `k`; meaningful only under `has_key` and
/// unambiguous only under `uniq_keys`.
pub open spec fn idx_of<V>(s: Seq<(String, V)>, k: Seq<char>) -> int {
    choose|i: int| 0 <= i < s.len() && #[trigger] s[i].0@ == k
}

/// The value stored for `k`; meaningful only under `has_key` and `uniq_keys`.
pub open spec fn val_of<V>(s: Seq<(String, V)>, k: Seq<char>) -> V {
    s[idx_of(s, k)].1
}

/// No two entries share a key.
pub open spec fn uniq_keys<V>(s: Seq<(String, V)>) -> bool {
    forall|i: int, j: int|
        0 <= i < j < s.len() ==> (#[trigger] s[i].0@) != (#[trigger] s[j].0@)
}

/// Under distinct keys, an entry with key `k` at index `i` is the entry the
/// lookup specs name.
pub proof fn lemma_key_at<V>(s: Seq<(String, V)>, k: Seq<char>, i: int)
    requires
        uniq_keys(s),
        0 <= i < s.len(),
        s[i].0@ == k,
    ensures
        has_key(s, k),
        idx_of(s, k) == i,
        val_of(s, k) == s[i].1,
{
    assert(has_key(s, k));
    let j = idx_of(s, k);
    assert(0 <= j < s.len() && s[j].0@ == k);
}

/// Linear search for the entry whose key equals `k`.
pub fn find_key<V>(v: &Vec<(String, V)>, k: &String) -> (r: Option<usize>)
    ensures
        match r {
            Some(i) => i < v@.len() && v@[i as int].0@ == k@,
            None => !has_key(v@, k@),
        },
{
    let mut i: usize = 0;
    while i < v.len()
        invariant
            i <= v@.len(),
            forall|j: int| 0 <= j < i ==> (#[trigger] v@[j].0@) != k@,
        decreases v@.len() - i,
    {
        if v[i].0 == *k {
            return Some(i);
        }
        i += 1;
    }
    None
}

/// Replacing the value at an existing entry keeps every key and changes
/// exactly that entry's value.
pub proof fn lemma_update_val<V>(s: Seq<(String, V)>, i: int, v2: V)
    requires
        uniq_keys(s),
        0 <= i < s.len(),
    ensures
        ({
            let s2 = s.update(i, (s[i].0, v2));
            &&& uniq_keys(s2)
            &&& forall|k: Seq<char>| has_key(s2, k) == has_key(s, k)
            &&& has_key(s2, s[i].0@)
            &&& val_of(s2, s[i].0@) == v2
            &&& forall|k: Seq<char>|
                has_key(s, k) && k != s[i].0@ ==> val_of(s2, k) == val_of(s, k)
        }),
{
    let s2 = s.update(i, (s[i].0, v2));
    assert(forall|j: int| 0 <= j < s.len() ==> #[trigger] s2[j].0@ == s[j].0@);
    assert forall|k: Seq<char>| has_key(s2, k) == has_key(s, k) by {
        if has_key(s2, k) {
            let j = choose|j: int| 0 <= j < s2.len() && #[trigger] s2[j].0@ == k;
            assert(s[j].0@ == k);
        }
        if has_key(s, k) {
            let j = choose|j: int| 0 <= j < s.len() && #[trigger] s[j].0@ == k;
            assert(s2[j].0@ == k);
        }
    }
    lemma_key_at(s2, s[i].0@, i);
    assert forall|k: Seq<char>|
        has_key(s, k) && k != s[i].0@ implies val_of(s2, k) == val_of(s, k) by {
        let j = choose|j: int| 0 <= j < s.len() && #[trigger] s[j].0@ == k;
        lemma_key_at(s, k, j);
        lemma_key_at(s2, k, j);
    }
}

/// Appending an entry with a fresh key keeps the old entries and adds one.
pub proof fn lemma_push_entry<V>(s: Seq<(String, V)>, key: String, v: V)
    requires
        uniq_keys(s),
        !has_key(s, key@),
    ensures
        ({
            let s2 = s.push((key, v));
            &&& uniq_keys(s2)
            &&& forall|k: Seq<char>| has_key(s2, k) == (has_key(s, k) || k == key@)
            &&& val_of(s2, key@) == v
            &&& forall|k: Seq<char>| has_key(s, k) ==> val_of(s2, k) == val_of(s, k)
        }),
{
    let s2 = s.push((key, v));
    assert(forall|j: int| 0 <= j < s.len() ==> #[trigger] s2[j].0@ == s[j].0@);
    assert(s2[s.len() as int].0@ == key@);
    assert forall|k: Seq<char>| has_key(s2, k) == (has_key(s, k) || k == key@) by {
        if has_key(s2, k) {
            let j = choose|j: int| 0 <= j < s2.len() && #[trigger] s2[j].0@ == k;
            if j < s.len() {
                assert(s[j].0@ == k);
            }
        }
        if has_key(s, k) {
            let j = choose|j: int| 0 <= j < s.len() && #[trigger] s[j].0@ == k;
            assert(s2[j].0@ == k);
        }
        if k == key@ {
            assert(s2[s.len() as int].0@ == k);
        }
    }
    lemma_key_at(s2, key@, s.len() as int);
    assert forall|k: Seq<char>| has_key(s, k) implies val_of(s2, k) == val_of(s, k) by {
        let j = choose|j: int| 0 <= j < s.len() && #[trigger] s[j].0@ == k;
        lemma_key_at(s, k, j);
        lemma_key_at(s2, k, j);
    }
}

/// Removing the entry at an index removes exactly its key.
pub proof fn lemma_remove_entry<V>(s: Seq<(String, V)>, i: int)
    requires
        uniq_keys(s),
        0 <= i < s.len(),
    ensures
        ({
            let s2 = s.remove(i);
            &&& uniq_keys(s2)
            &&& forall|k: Seq<char>| has_key(s2, k) == (has_key(s, k) && k != s[i].0@)
            &&& forall|k: Seq<char>|
                has_key(s, k) && k != s[i].0@ ==> val_of(s2, k) == val_of(s, k)
        }),
{
    let s2 = s.remove(i);
    assert(forall|j: int| 0 <= j < i ==> s2[j] == s[j]);
    assert(forall|j: int| i <= j < s2.len() ==> s2[j] == s[j + 1]);
    assert forall|k: Seq<char>| has_key(s2, k) == (has_key(s, k) && k != s[i].0@) by {
        if has_key(s2, k) {
            let j = choose|j: int| 0 <= j < s2.len() && #[trigger] s2[j].0@ == k;
            if j < i {
                assert(s[j].0@ == k);
            } else {
                assert(s[j + 1].0@ == k);
            }
        }
        if has_key(s, k) && k != s[i].0@ {
            let j = choose|j: int| 0 <= j < s.len() && #[trigger] s[j].0@ == k;
            if j < i {
                assert(s2[j].0@ == k);
            } else {
                assert(s2[j - 1].0@ == k);
            }
        }
    }
    assert forall|k: Seq<char>|
        has_key(s, k) && k != s[i].0@ implies val_of(s2, k) == val_of(s, k) by {
        let j = choose|j: int| 0 <= j < s.len() && #[trigger] s[j].0@ == k;
        lemma_key_at(s, k, j);
        if j < i {
            lemma_key_at(s2, k, j);
        } else {
            lemma_key_at(s2, k, j - 1);
        }
    }
}

/// Renaming the key of one entry to a fresh name moves exactly that key.
pub proof fn lemma_rename_key<V>(s: Seq<(String, V)>, i: int, k2: String)
    requires
        uniq_keys(s),
        0 <= i < s.len(),
        !has_key(s, k2@),
    ensures
        ({
            let s2 = s.update(i, (k2, s[i].1));
            &&& uniq_keys(s2)
            &&& forall|k: Seq<char>|
                has_key(s2, k) == ((has_key(s, k) && k != s[i].0@) || k == k2@)
            &&& val_of(s2, k2@) == s[i].1
            &&& forall|k: Seq<char>|
                has_key(s, k) && k != s[i].0@ && k != k2@ ==> val_of(s2, k) == val_of(s, k)
        }),
{
    let s2 = s.update(i, (k2, s[i].1));
    assert(forall|j: int| 0 <= j < s.len() && j != i ==> s2[j] == s[j]);
    assert(s2[i].0@ == k2@);
    assert(s[i].0@ != k2@);
    assert forall|k: Seq<char>|
        has_key(s2, k) == ((has_key(s, k) && k != s[i].0@) || k == k2@) by {
        if has_key(s2, k) {
            let j = choose|j: int| 0 <= j < s2.len() && #[trigger] s2[j].0@ == k;
            if j != i {
                assert(s[j].0@ == k);
                assert(k != s[i].0@);
            }
        }
        if has_key(s, k) && k != s[i].0@ {
            let j = choose|j: int| 0 <= j < s.len() && #[trigger] s[j].0@ == k;
            assert(j != i);
            assert(s2[j].0@ == k);
        }
        if k == k2@ {
            assert(s2[i].0@ == k);
        }
    }
    assert forall|j: int, l: int| 0 <= j < l < s2.len() implies (#[trigger] s2[j].0@)
        != (#[trigger] s2[l].0@) by {
        if j != i && l != i {
            assert(s[j].0@ != s[l].0@);
        } else if j == i {
            assert(s[l].0@ != k2@);
        } else {
            assert(s[j].0@ != k2@);
        }
    }
    lemma_key_at(s2, k2@, i);
    assert forall|k: Seq<char>|
        has_key(s, k) && k != s[i].0@ && k != k2@ implies val_of(s2, k) == val_of(s, k) by {
        let j = choose|j: int| 0 <= j < s.len() && #[trigger] s[j].0@ == k;
        assert(j != i);
        lemma_key_at(s, k, j);
        lemma_key_at(s2, k, j);
    }
}

/// Membership in a sequence extended by one element.
pub proof fn lemma_push_contains<A>(s: Seq<A>, x: A, y: A)
    ensures
        s.push(x).contains(y) == (s.contains(y) || y == x),
{
    let s2 = s.push(x);
    if s2.contains(y) {
        let i = choose|i: int| 0 <= i < s2.len() && s2[i] == y;
        if i < s.len() {
            assert(s.contains(y));
        }
    }
    if s.contains(y) {
        let i = choose|i: int| 0 <= i < s.len() && s[i] == y;
        assert(s2[i] == y);
    }
    if y == x {
        assert(s2[s.len() as int] == y);
    }
}

/// A plain list of names holds `n`.
pub open spec fn has_name(s: Seq<String>, n: Seq<char>) -> bool {
    exists|i: int| 0 <= i < s.len() && #[trigger] s[i]@ == n
}

/// No two names in the list read the same.
pub open spec fn uniq_names(s: Seq<String>) -> bool {
    forall|i: int, j: int| 0 <= i < j < s.len() ==> (#[trigger] s[i]@) != (#[trigger] s[j]@)
}

/// Linear search in a list of names.
pub fn find_name(v: &Vec<String>, n: &String) -> (r: Option<usize>)
    ensures
        match r {
            Some(i) => i < v@.len() && v@[i as int]@ == n@,
            None => !has_name(v@, n@),
        },
{
    let mut i: usize = 0;
    while i < v.len()
        invariant
            i <= v@.len(),
            forall|j: int| 0 <= j < i ==> (#[trigger] v@[j]@) != n@,
        decreases v@.len() - i,
    {
        if v[i] == *n {
            return Some(i);
        }
        i += 1;
    }
    None
}

/// What appending a fresh name does to a name list.
pub proof fn lemma_push_name(s: Seq<String>, v: String)
    requires
        uniq_names(s),
        !has_name(s, v@),
    ensures
        uniq_names(s.push(v)),
        forall|n: Seq<char>| has_name(s.push(v), n) == (has_name(s, n) || n == v@),
{
    let s2 = s.push(v);
    assert(forall|j: int| 0 <= j < s.len() ==> (#[trigger] s2[j]@) == s[j]@);
    assert(s2[s.len() as int]@ == v@);
    assert forall|n: Seq<char>| has_name(s2, n) == (has_name(s, n) || n == v@) by {
        if has_name(s2, n) {
            let j = choose|j: int| 0 <= j < s2.len() && (#[trigger] s2[j]@) == n;
            if j < s.len() {
                assert(s[j]@ == n);
            }
        }
        if has_name(s, n) {
            let j = choose|j: int| 0 <= j < s.len() && (#[trigger] s[j]@) == n;
            assert(s2[j]@ == n);
        }
        if n == v@ {
            assert(s2[s.len() as int]@ == n);
        }
    }
}

/// What removing the entry at an index does to a name list.
pub proof fn lemma_remove_name(s: Seq<String>, i: int)
    requires
        uniq_names(s),
        0 <= i < s.len(),
    ensures
        uniq_names(s.remove(i)),
        forall|n: Seq<char>| has_name(s.remove(i), n) == (has_name(s, n) && n != s[i]@),
{
    let s2 = s.remove(i);
    assert(forall|j: int| 0 <= j < i ==> s2[j] == s[j]);
    assert(forall|j: int| i <= j < s2.len() ==> s2[j] == s[j + 1]);
    assert forall|n: Seq<char>| has_name(s2, n) == (has_name(s, n) && n != s[i]@) by {
        if has_name(s2, n) {
            let j = choose|j: int| 0 <= j < s2.len() && (#[trigger] s2[j]@) == n;
            if j < i {
                assert(s[j]@ == n);
            } else {
                assert(s[j + 1]@ == n);
            }
        }
        if has_name(s, n) && n != s[i]@ {
            let j = choose|j: int| 0 <= j < s.len() && (#[trigger] s[j]@) == n;
            if j < i {
                assert(s2[j]@ == n);
            } else {
                assert(s2[j - 1]@ == n);
            }
        }
    }
}

/// Insert a name unless it is already present.
pub fn insert_name(v: &mut Vec<String>, n: String)
    requires
        uniq_names(old(v)@),
    ensures
        uniq_names(final(v)@),
        if has_name(old(v)@, n@) {
            *final(v) == *old(v)
        } else {
            final(v)@ == old(v)@.push(n)
        },
        forall|k: Seq<char>| has_name(final(v)@, k) == (has_name(old(v)@, k) || k == n@),
{
    match find_name(v, &n) {
        Some(_) => {}
        None => {
            proof {
                lemma_push_name(v@, n);
            }
            v.push(n);
        }
    }
}

/// Remove a name if it is present.
pub fn remove_name(v: &mut Vec<String>, n: &String)
    requires
        uniq_names(old(v)@),
    ensures
        uniq_names(final(v)@),
        if !has_name(old(v)@, n@) {
            *final(v) == *old(v)
        } else {
            exists|i: int|
                0 <= i < old(v)@.len() && old(v)@[i]@ == n@ && final(v)@ == old(v)@.remove(i)
        },
        forall|k: Seq<char>| has_name(final(v)@, k) == (has_name(old(v)@, k) && k != n@),
{
    match find_name(v, n) {
        Some(i) => {
            proof {
                lemma_remove_name(v@, i as int);
            }
            v.remove(i);
        }
        None => {}
    }
}

/// Are the keys of an association list pairwise distinct?
pub fn check_uniq_keys<V>(v: &Vec<(String, V)>) -> (r: bool)
    ensures
        r == uniq_keys(v@),
{
    let mut i: usize = 0;
    while i < v.len()
        invariant
            i <= v@.len(),
            forall|x: int, y: int|
                0 <= x < y < v@.len() && x < i ==> (#[trigger] v@[x].0@) != (#[trigger] v@[y].0@),
        decreases v@.len() - i,
    {
        let mut j: usize = i + 1;
        while j < v.len()
            invariant
                i < j,
                j <= v@.len(),
                i < v@.len(),
                forall|y: int| i < y < j ==> (#[trigger] v@[y].0@) != v@[i as int].0@,
            decreases v@.len() - j,
        {
            if v[i].0 == v[j].0 {
                return false;
            }
            j += 1;
        }
        i += 1;
    }
    true
}

/// Are the names in a list pairwise distinct?
pub fn check_uniq_names(v: &Vec<String>) -> (r: bool)
    ensures
        r == uniq_names(v@),
{
    let mut i: usize = 0;
    while i < v.len()
        invariant
            i <= v@.len(),
            forall|x: int, y: int|
                0 <= x < y < v@.len() && x < i ==> (#[trigger] v@[x]@) != (#[trigger] v@[y]@),
        decreases v@.len() - i,
    {
        let mut j: usize = i + 1;
        while j < v.len()
            invariant
                i < j,
                j <= v@.len(),
                i < v@.len(),
                forall|y: int| i < y < j ==> (#[trigger] v@[y]@) != v@[i as int]@,
            decreases v@.len() - j,
        {
            if v[i] == v[j] {
                return false;
            }
            j += 1;
        }
        i += 1;
    }
    true
}

/// The rename of one key in an association list, overwrite style: the old
/// key's entry moves under the new name, displacing any entry already
/// there; a missing old key, or equal names, change nothing.
pub open spec fn alist_renamed<V>(
    pre: Seq<(String, V)>,
    post: Seq<(String, V)>,
    oldn: Seq<char>,
    newn: Seq<char>,
) -> bool {
    if oldn == newn || !has_key(pre, oldn) {
        post == pre
    } else {
        &&& !has_key(post, oldn)
        &&& has_key(post, newn)
        &&& val_of(post, newn) == val_of(pre, oldn)
        &&& forall|k: Seq<char>|
            k != oldn && k != newn ==> #[trigger] has_key(post, k) == has_key(pre, k)
        &&& forall|k: Seq<char>|
            k != oldn && k != newn && has_key(pre, k) ==> #[trigger] val_of(post, k) == val_of(
                pre,
                k,
            )
    }
}

/// Move the entry under `oldn` to the name `newn`, displacing any entry
/// already stored there.
pub fn rename_alist_key<V>(v: &mut Vec<(String, V)>, oldn: &String, newn: &String)
    requires
        uniq_keys(old(v)@),
    ensures
        uniq_keys(final(v)@),
        alist_renamed(old(v)@, final(v)@, oldn@, newn@),
{
    if *oldn == *newn {
        return ;
    }
    let ghost m1 = v@;
    let i = match find_key(v, oldn) {
        Some(i) => i,
        None => {
            return ;
        }
    };
    proof {
        lemma_key_at(m1, oldn@, i as int);
    }
    let entry = v.remove(i);
    let ghost m2 = v@;
    proof {
        lemma_remove_entry(m1, i as int);
    }
    match find_key(v, newn) {
        Some(j) => {
            proof {
                lemma_key_at(m2, newn@, j as int);
            }
            v[j].1 = entry.1;
            proof {
                let m3 = v@;
                assert(m3[j as int] =~= (m2[j as int].0, m3[j as int].1));
                assert(m3 =~= m2.update(j as int, (m2[j as int].0, m3[j as int].1)));
                lemma_update_val(m2, j as int, m3[j as int].1);
            }
        }
        None => {
            let key = newn.clone();
            v.push((key, entry.1));
            proof {
                lemma_push_entry(m2, v@[v@.len() - 1].0, v@[v@.len() - 1].1);
            }
        }
    }
}

} // verus!
