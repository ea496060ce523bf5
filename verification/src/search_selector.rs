//! Text filtering for selection popups: a candidate matches a filter when
//! its lowercased label contains every whitespace-separated word of the
//! filter, plus the one-entry cache that keeps the filtered list stable
//! across frames.

use vstd::prelude::*;
use vstd::std_specs::cmp::PartialEqSpec;

verus! {

/// What `str::to_lowercase` returns for a given character sequence; the
/// result depends on the characters alone.
pub uninterp spec fn lower_of(s: Seq<char>) -> Seq<char>;

/// What `str::split_whitespace` returns for a given character sequence: the
/// maximal runs of non-whitespace characters, in order; the result depends
/// on the characters alone.
pub uninterp spec fn words_of(s: Seq<char>) -> Seq<Seq<char>>;

/// `n` occurs contiguously inside `h`.
pub open spec fn contains_sub(h: Seq<char>, n: Seq<char>) -> bool {
    exists|i: int| 0 <= i <= h.len() - n.len() && (#[trigger] h.subrange(i, i + n.len())) == n
}

/// Relies on str::to_lowercase: the Unicode lowercase mapping of the
/// receiver's characters, nothing else.
#[verifier::external_body]
fn to_lowercase(s: &str) -> (r: String)
    ensures
        r@ == lower_of(s@),
        s@.len() == 0 ==> r@.len() == 0,
{
    s.to_lowercase()
}

/// Relies on str::split_whitespace: the substrings between runs of Unicode
/// whitespace, in order, never empty and never containing whitespace.
#[verifier::external_body]
fn split_whitespace_vec(s: &str) -> (r: Vec<String>)
    ensures
        r@.len() == words_of(s@).len(),
        forall|i: int| 0 <= i < r@.len() ==> (#[trigger] r@[i]@) == words_of(s@)[i],
        s@.len() == 0 ==> r@.len() == 0,
{
    s.split_whitespace().map(|w| w.to_string()).collect()
}

/// Relies on str::contains: whether the pattern matches a contiguous
/// sub-slice of the receiver.
#[verifier::external_body]
fn str_contains(h: &str, n: &str) -> (r: bool)
    ensures
        r == contains_sub(h@, n@),
{
    h.contains(n)
}

/// The candidate's lowercased label contains every word of the filter.
pub open spec fn spec_valid_result(a: Seq<char>, selector: Seq<char>) -> bool {
    forall|i: int|
        0 <= i < words_of(selector).len() ==> contains_sub(
            lower_of(a),
            #[trigger] words_of(selector)[i],
        )
}

/// Does candidate label `a` pass the filter text `selector`?
pub fn valid_result(a: &str, selector: &str) -> (r: bool)
    ensures
        r == spec_valid_result(a@, selector@),
{
    let on = to_lowercase(a);
    let keywords = split_whitespace_vec(selector);
    let mut i: usize = 0;
    while i < keywords.len()
        invariant
            i <= keywords@.len(),
            keywords@.len() == words_of(selector@).len(),
            forall|j: int|
                0 <= j < keywords@.len() ==> (#[trigger] keywords@[j]@) == words_of(selector@)[j],
            on@ == lower_of(a@),
            forall|j: int| 0 <= j < i ==> contains_sub(lower_of(a@), #[trigger] words_of(selector@)[j]),
        decreases keywords@.len() - i,
    {
        if !str_contains(on.as_str(), keywords[i].as_str()) {
            return false;
        }
        i += 1;
    }
    true
}

/// A one-entry cache: remembers the last key and the value computed for it,
/// and a read mark that `update` uses to expire an entry no frame asked for.
#[derive(Debug, Clone, Default)]
pub struct SingleCache<K, V> {
    pub last_key: Option<K>,
    pub value: V,
    pub read: bool,
}

impl<K, V> SingleCache<K, V> {
    /// The value for `key`: the cached one on a hit, a freshly computed one
    /// on a miss. The equality claims hold whenever `K`'s `==` obeys its
    /// specification.
    pub fn get<F: FnOnce() -> V>(&mut self, key: &K, f: F) -> (r: &V)
        where K: PartialEq + Clone,
        requires
            f.requires(()),
        ensures
            final(self).read,
            r == &final(self).value,
            K::obeys_eq_spec() && (old(self).last_key matches Some(lk) && lk.eq_spec(key))
                ==> final(self).value == old(self).value && final(self).last_key == old(
                self,
            ).last_key,
            K::obeys_eq_spec() && !(old(self).last_key matches Some(lk) && lk.eq_spec(key)) ==> {
                &&& call_ensures(f, (), final(self).value)
                &&& final(self).last_key matches Some(nk) && vstd::pervasive::cloned::<K>(*key, nk)
            },
    {
        self.read = true;
        let hit = match &self.last_key {
            Some(lk) => lk == key,
            None => false,
        };
        if !hit {
            self.last_key = Some(key.clone());
            self.value = f();
        }
        &self.value
    }

    /// End-of-frame bookkeeping: an entry that was not read since the last
    /// `update` is expired, and the read mark is reset.
    pub fn update(&mut self)
        ensures
            !final(self).read,
            final(self).value == old(self).value,
            old(self).read ==> final(self).last_key == old(self).last_key,
            !old(self).read ==> final(self).last_key is None,
    {
        if !self.read {
            self.last_key = None;
        }
        self.read = false;
    }
}

/// The cache shape used by selection popups: filter text to the matching
/// labelled options.
pub type SelectorCache<A> = SingleCache<String, Vec<(String, A)>>;

} // verus!
