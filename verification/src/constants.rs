//! The constant tree: a recursive tagged union of typed configuration
//! values, addressed by paths of object-field names. Floating-point leaves
//! carry their IEEE-754 bit pattern; the core stores and moves them but
//! never interprets them.

use vstd::prelude::*;

use crate::kv::{find_key, has_key, lemma_key_at, lemma_remove_entry, uniq_keys, val_of};

verus! {

broadcast use vstd::std_specs::vec::axiom_vec_index_decreases;

/// A typed configuration constant. `Object` fields are an association list
/// with pairwise-distinct names; `Driver` marks a leaf as per-profile
/// overridable and carries the fallback value.
#[derive(Debug, PartialEq)]
pub enum Constants {
    Driver { default: Box<Constants> },
    Object { map: Vec<(String, Constants)> },
    Int(i64),
    /// IEEE-754 bit pattern of a 64-bit float; opaque to the core.
    Float(u64),
    Str(String),
    Bool(bool),
    List(Vec<Constants>, ConstantsType),
    /// Distance in meters, as a 64-bit float bit pattern.
    Meters { distance: u64 },
    /// Angle in degrees, as a 64-bit float bit pattern.
    Degrees { degrees: u64 },
    Null,
}

/// The type tag used to drive "create a new constant of type T" flows.
#[derive(Debug, PartialEq, Eq)]
pub enum ConstantsType {
    Object,
    Float,
    Int,
    Str,
    Bool,
    Distance,
    Angle,
    Driver(Box<ConstantsType>),
    List(Box<ConstantsType>),
    Null,
}

/// A path of object-field names addressing a node in a constant tree.
pub type OptionLocation = Vec<String>;

impl ConstantsType {
    /// The fixed display label of each type tag.
    pub open spec fn spec_name(self) -> Seq<char> {
        match self {
            ConstantsType::Object => "Object"@,
            ConstantsType::Float => "Float"@,
            ConstantsType::Int => "Int"@,
            ConstantsType::Str => "String"@,
            ConstantsType::Null => "null"@,
            ConstantsType::Driver(..) => "Driver"@,
            ConstantsType::List(..) => "List"@,
            ConstantsType::Bool => "Bool"@,
            ConstantsType::Distance => "Distance"@,
            ConstantsType::Angle => "Angle"@,
        }
    }

    pub fn name(&self) -> (r: &'static str)
        ensures
            r@ == self.spec_name(),
    {
        match self {
            ConstantsType::Object => "Object",
            ConstantsType::Float => "Float",
            ConstantsType::Int => "Int",
            ConstantsType::Str => "String",
            ConstantsType::Null => "null",
            ConstantsType::Driver(..) => "Driver",
            ConstantsType::List(..) => "List",
            ConstantsType::Bool => "Bool",
            ConstantsType::Distance => "Distance",
            ConstantsType::Angle => "Angle",
        }
    }

    /// A structurally equal copy.
    pub fn duplicate(&self) -> (r: Self)
        ensures
            r == *self,
        decreases *self,
    {
        match self {
            ConstantsType::Object => ConstantsType::Object,
            ConstantsType::Float => ConstantsType::Float,
            ConstantsType::Int => ConstantsType::Int,
            ConstantsType::Str => ConstantsType::Str,
            ConstantsType::Null => ConstantsType::Null,
            ConstantsType::Bool => ConstantsType::Bool,
            ConstantsType::Distance => ConstantsType::Distance,
            ConstantsType::Angle => ConstantsType::Angle,
            ConstantsType::Driver(d) => ConstantsType::Driver(Box::new(d.duplicate())),
            ConstantsType::List(d) => ConstantsType::List(Box::new(d.duplicate())),
        }
    }

    /// The type tags offered when creating a new constant. Inside a `Driver`
    /// (or a list) only plain value types are offered; at the top level a
    /// `Driver` wrapper and an `Object` are offered too.
    pub fn valid_types(driver: bool) -> (r: Vec<ConstantsType>)
        ensures
            driver ==> r@ =~= seq![
                ConstantsType::Float,
                ConstantsType::Int,
                ConstantsType::Str,
                ConstantsType::Angle,
                ConstantsType::Distance,
                ConstantsType::List(Box::new(ConstantsType::Null)),
            ],
            !driver ==> r@ =~= seq![
                ConstantsType::Float,
                ConstantsType::Int,
                ConstantsType::Str,
                ConstantsType::Angle,
                ConstantsType::Distance,
                ConstantsType::List(Box::new(ConstantsType::Null)),
                ConstantsType::Driver(Box::new(ConstantsType::Null)),
                ConstantsType::Object,
            ],
    {
        let mut v: Vec<ConstantsType> = Vec::new();
        v.push(ConstantsType::Float);
        v.push(ConstantsType::Int);
        v.push(ConstantsType::Str);
        v.push(ConstantsType::Angle);
        v.push(ConstantsType::Distance);
        v.push(ConstantsType::List(Box::new(ConstantsType::Null)));
        if !driver {
            v.push(ConstantsType::Driver(Box::new(ConstantsType::Null)));
            v.push(ConstantsType::Object);
        }
        v
    }

    /// The tag can be instantiated by `default_for_type`: no `Driver` wraps
    /// another `Driver`.
    pub open spec fn spec_valid_default(self) -> bool
        decreases self,
    {
        match self {
            ConstantsType::Driver(d) => !(*d is Driver) && d.spec_valid_default(),
            _ => true,
        }
    }
}

/// `c` is the zero value of shape `t`.
pub open spec fn is_default_of(t: ConstantsType, c: Constants) -> bool
    decreases t,
{
    match t {
        ConstantsType::Object => c matches Constants::Object { map } && map@.len() == 0,
        ConstantsType::Float => c == Constants::Float(0),
        ConstantsType::Int => c == Constants::Int(0),
        ConstantsType::Str => c matches Constants::Str(s) && s@.len() == 0,
        ConstantsType::Bool => c == Constants::Bool(false),
        ConstantsType::Distance => c == (Constants::Meters { distance: 0 }),
        ConstantsType::Angle => c == (Constants::Degrees { degrees: 0 }),
        ConstantsType::Null => c == Constants::Null,
        ConstantsType::Driver(d) => c matches Constants::Driver { default }
            && is_default_of(*d, *default),
        ConstantsType::List(t2) => c matches Constants::List(items, et) && items@.len() == 0
            && et == *t2,
    }
}

impl Constants {
    /// Build the zero value of shape `t`. A `Driver` wrapping a `Driver` is
    /// rejected: no constant with a nested `Driver` is ever produced.
    pub fn default_for_type(t: &ConstantsType) -> (r: Option<Constants>)
        ensures
            r is Some <==> t.spec_valid_default(),
            match r {
                Some(c) => is_default_of(*t, c),
                None => true,
            },
        decreases *t,
    {
        match t {
            ConstantsType::Object => Some(Constants::Object { map: Vec::new() }),
            ConstantsType::Float => Some(Constants::Float(0)),
            ConstantsType::Int => Some(Constants::Int(0)),
            ConstantsType::Str => Some(Constants::Str(String::new())),
            ConstantsType::Bool => Some(Constants::Bool(false)),
            ConstantsType::Distance => Some(Constants::Meters { distance: 0 }),
            ConstantsType::Angle => Some(Constants::Degrees { degrees: 0 }),
            ConstantsType::Null => Some(Constants::Null),
            ConstantsType::List(t2) => Some(Constants::List(Vec::new(), t2.duplicate())),
            ConstantsType::Driver(d) => {
                if let ConstantsType::Driver(_) = &**d {
                    None
                } else {
                    match Self::default_for_type(d) {
                        Some(inner) => Some(Constants::Driver { default: Box::new(inner) }),
                        None => None,
                    }
                }
            }
        }
    }
}

/// Well-formedness of a constant tree: every object's field names are
/// pairwise distinct, recursively.
impl Constants {
    pub open spec fn wf(self) -> bool
        decreases self,
    {
        match self {
            Constants::Object { map } => uniq_keys(map@) && (forall|i: int|
                0 <= i < map@.len() ==> (#[trigger] map@[i].1).wf()),
            Constants::Driver { default } => default.wf(),
            Constants::List(items, _) => forall|i: int|
                0 <= i < items@.len() ==> (#[trigger] items@[i]).wf(),
            _ => true,
        }
    }

    /// The value stored at `path`, descending through object fields;
    /// `None` when the path does not resolve.
    pub open spec fn spec_get(self, path: Seq<Seq<char>>) -> Option<Constants>
        decreases path.len(),
    {
        if path.len() == 0 {
            Some(self)
        } else {
            match self {
                Constants::Object { map } => if has_key(map@, path[0]) {
                    val_of(map@, path[0]).spec_get(path.skip(1))
                } else {
                    None
                },
                _ => None,
            }
        }
    }

    /// Inserting at `path` would clash with an existing value: a non-object,
    /// non-null node blocks the walk, or the final slot already holds a
    /// value.
    pub open spec fn spec_conflicts(self, path: Seq<Seq<char>>) -> bool
        decreases path.len(),
    {
        if path.len() == 0 {
            !(self is Null)
        } else {
            match self {
                Constants::Object { map } => if has_key(map@, path[0]) {
                    val_of(map@, path[0]).spec_conflicts(path.skip(1))
                } else {
                    false
                },
                Constants::Null => false,
                _ => true,
            }
        }
    }
}

/// Deep value equality of two constant trees: same shape, same leaf values,
/// object fields equal name for name in order.
pub open spec fn ceq(a: Constants, b: Constants) -> bool
    decreases a,
{
    match (a, b) {
        (Constants::Driver { default: d1 }, Constants::Driver { default: d2 }) => ceq(*d1, *d2),
        (Constants::Object { map: m1 }, Constants::Object { map: m2 }) => m1@.len() == m2@.len()
            && (forall|i: int|
            0 <= i < m1@.len() ==> ((#[trigger] m1@[i]).0@ == m2@[i].0@ && ceq(m1@[i].1, m2@[i].1))),
        (Constants::Int(x), Constants::Int(y)) => x == y,
        (Constants::Float(x), Constants::Float(y)) => x == y,
        (Constants::Str(x), Constants::Str(y)) => x@ == y@,
        (Constants::Bool(x), Constants::Bool(y)) => x == y,
        (Constants::List(v1, t1), Constants::List(v2, t2)) => t1 == t2 && v1@.len() == v2@.len()
            && (forall|i: int| 0 <= i < v1@.len() ==> ceq(#[trigger] v1@[i], v2@[i])),
        (Constants::Meters { distance: x }, Constants::Meters { distance: y }) => x == y,
        (Constants::Degrees { degrees: x }, Constants::Degrees { degrees: y }) => x == y,
        (Constants::Null, Constants::Null) => true,
        _ => false,
    }
}

impl Constants {
    /// A deep copy, equal tree for tree to the original.
    pub fn duplicate(&self) -> (r: Self)
        ensures
            ceq(r, *self),
        decreases *self,
    {
        match self {
            Constants::Int(x) => Constants::Int(*x),
            Constants::Float(x) => Constants::Float(*x),
            Constants::Str(x) => Constants::Str(x.clone()),
            Constants::Bool(x) => Constants::Bool(*x),
            Constants::Meters { distance } => Constants::Meters { distance: *distance },
            Constants::Degrees { degrees } => Constants::Degrees { degrees: *degrees },
            Constants::Null => Constants::Null,
            Constants::Driver { default } => Constants::Driver {
                default: Box::new(default.duplicate()),
            },
            Constants::List(items, t) => {
                let mut out: Vec<Constants> = Vec::new();
                let mut i: usize = 0;
                while i < items.len()
                    invariant
                        i <= items@.len(),
                        out@.len() == i,
                        *self is List,
                        self->0 == *items,
                        forall|j: int| 0 <= j < i ==> ceq(#[trigger] out@[j], items@[j]),
                    decreases items@.len() - i,
                {
                    proof {
                        assert(decreases_to!(*self => *items));
                    }
                    let c = items[i].duplicate();
                    out.push(c);
                    i += 1;
                }
                Constants::List(out, t.duplicate())
            }
            Constants::Object { map } => {
                let mut out: Vec<(String, Constants)> = Vec::new();
                let mut i: usize = 0;
                while i < map.len()
                    invariant
                        i <= map@.len(),
                        out@.len() == i,
                        *self is Object,
                        self->map == *map,
                        forall|j: int|
                            0 <= j < i ==> ((#[trigger] out@[j]).0@ == map@[j].0@ && ceq(
                                out@[j].1,
                                map@[j].1,
                            )),
                    decreases map@.len() - i,
                {
                    proof {
                        assert(decreases_to!(*self => *map));
                    }
                    let k = map[i].0.clone();
                    let c = map[i].1.duplicate();
                    out.push((k, c));
                    i += 1;
                }
                Constants::Object { map: out }
            }
        }
    }
}

impl Constants {
    /// Does the tree satisfy its well-formedness? The shell runs this on
    /// freshly parsed trees before handing them to the core.
    pub fn check_wf(&self) -> (r: bool)
        ensures
            r == self.wf(),
        decreases *self,
    {
        match self {
            Constants::Object { map } => {
                if !crate::kv::check_uniq_keys(map) {
                    return false;
                }
                let mut i: usize = 0;
                while i < map.len()
                    invariant
                        i <= map@.len(),
                        *self is Object,
                        self->map == *map,
                        uniq_keys(map@),
                        forall|j: int| 0 <= j < i ==> (#[trigger] map@[j].1).wf(),
                    decreases map@.len() - i,
                {
                    proof {
                        assert(decreases_to!(*self => *map));
                    }
                    if !map[i].1.check_wf() {
                        return false;
                    }
                    i += 1;
                }
                true
            }
            Constants::Driver { default } => default.check_wf(),
            Constants::List(items, _) => {
                let mut i: usize = 0;
                while i < items.len()
                    invariant
                        i <= items@.len(),
                        *self is List,
                        self->0 == *items,
                        forall|j: int| 0 <= j < i ==> (#[trigger] items@[j]).wf(),
                    decreases items@.len() - i,
                {
                    proof {
                        assert(decreases_to!(*self => *items));
                    }
                    if !items[i].check_wf() {
                        return false;
                    }
                    i += 1;
                }
                true
            }
            _ => true,
        }
    }
}

/// Deep equality carries well-formedness across: a tree equal, reading for
/// reading, to a well-formed one is well-formed.
pub proof fn lemma_ceq_wf(a: Constants, b: Constants)
    requires
        ceq(a, b),
        b.wf(),
    ensures
        a.wf(),
    decreases a,
{
    match a {
        Constants::Driver { default } => {
            lemma_ceq_wf(*default, *b->default);
        }
        Constants::Object { map } => {
            let bm = b->map;
            assert forall|i: int, j: int|
                0 <= i < j < map@.len() implies (#[trigger] map@[i].0@) != (#[trigger] map@[j].0@)
            by {
                assert((#[trigger] bm@[i]).0@ == map@[i].0@);
                assert((#[trigger] bm@[j]).0@ == map@[j].0@);
            }
            assert forall|i: int| 0 <= i < map@.len() implies (#[trigger] map@[i].1).wf() by {
                assert((#[trigger] bm@[i]).0@ == map@[i].0@ && ceq(map@[i].1, bm@[i].1));
                assert((#[trigger] bm@[i].1).wf());
                lemma_ceq_wf(map@[i].1, bm@[i].1);
            }
        }
        Constants::List(items, _) => {
            let bi = b->0;
            assert forall|i: int| 0 <= i < items@.len() implies (#[trigger] items@[i]).wf() by {
                assert(ceq(#[trigger] items@[i], bi@[i]));
                assert((#[trigger] bi@[i]).wf());
                lemma_ceq_wf(items@[i], bi@[i]);
            }
        }
        _ => {}
    }
}

/// The list of field names as a path of name readings.
pub open spec fn path_view(p: Seq<String>) -> Seq<Seq<char>> {
    p.map_values(|s: String| s@)
}

/// How skipping distributes over the path reading.
pub proof fn lemma_path_view_skip(p: Seq<String>, d: int)
    requires
        0 <= d < p.len(),
    ensures
        path_view(p).skip(d).len() == p.len() - d,
        path_view(p).skip(d)[0] == p[d]@,
        path_view(p).skip(d).skip(1) =~= path_view(p).skip(d + 1),
{
    assert(path_view(p).skip(d).skip(1) =~= path_view(p).skip(d + 1));
}

/// What a successful insertion at `p` guarantees: the value is readable at
/// `p`, every path that neither contains nor extends `p` reads as before,
/// and every proper prefix of `p` now reads as an object.
pub open spec fn spec_added(pre: Constants, post: Constants, p: Seq<Seq<char>>, v: Constants) -> bool {
    &&& post.spec_get(p) == Some(v)
    &&& forall|q: Seq<Seq<char>>|
        !q.is_prefix_of(p) && !p.is_prefix_of(q) ==> (#[trigger] post.spec_get(q)) == pre.spec_get(
            q,
        )
    &&& forall|q: Seq<Seq<char>>|
        q.len() < p.len() && q.is_prefix_of(p) ==> ((#[trigger] post.spec_get(q)) matches Some(c)
            && c is Object)
}

/// What a removal at `p` guarantees: `p` and everything under it read as
/// absent, every path that neither contains nor extends `p` reads as before.
pub open spec fn spec_removed(pre: Constants, post: Constants, p: Seq<Seq<char>>) -> bool {
    &&& forall|q: Seq<Seq<char>>|
        !q.is_prefix_of(p) && !p.is_prefix_of(q) ==> (#[trigger] post.spec_get(q)) == pre.spec_get(
            q,
        )
    &&& forall|q: Seq<Seq<char>>| p.is_prefix_of(q) ==> (#[trigger] post.spec_get(q)) is None
}

/// Two paths sharing their first name are prefix-related exactly when their
/// tails are.
pub proof fn lemma_prefix_skip(q: Seq<Seq<char>>, p: Seq<Seq<char>>)
    requires
        q.len() > 0,
        p.len() > 0,
        q[0] == p[0],
    ensures
        q.is_prefix_of(p) == q.skip(1).is_prefix_of(p.skip(1)),
{
    let qs = q.skip(1);
    let ps = p.skip(1);
    if q.is_prefix_of(p) {
        assert(q =~= p.subrange(0, q.len() as int));
        assert forall|i: int| 0 <= i < qs.len() implies qs[i] == ps.subrange(
            0,
            qs.len() as int,
        )[i] by {
            assert(qs[i] == q[i + 1]);
        }
        assert(qs =~= ps.subrange(0, qs.len() as int));
    }
    if qs.is_prefix_of(ps) {
        assert(qs =~= ps.subrange(0, qs.len() as int));
        assert forall|i: int| 0 <= i < q.len() implies q[i] == p.subrange(
            0,
            q.len() as int,
        )[i] by {
            if i > 0 {
                assert(q[i] == qs[i - 1]);
                assert(qs[i - 1] == ps.subrange(0, qs.len() as int)[i - 1]);
                assert(ps[i - 1] == p[i]);
            }
        }
        assert(q =~= p.subrange(0, q.len() as int));
    }
}

/// A path that reads as absent has every extension read as absent.
pub proof fn lemma_get_none_extends(t: Constants, p: Seq<Seq<char>>, q: Seq<Seq<char>>)
    requires
        t.spec_get(p) is None,
        p.is_prefix_of(q),
    ensures
        t.spec_get(q) is None,
    decreases p.len(),
{
    if p.len() > 0 {
        assert(q.len() >= p.len());
        assert(q[0] == p[0]);
        match t {
            Constants::Object { map } => {
                if has_key(map@, p[0]) {
                    assert(p.skip(1).is_prefix_of(q.skip(1))) by {
                        assert(p.skip(1) =~= q.skip(1).subrange(0, p.len() - 1));
                    }
                    lemma_get_none_extends(val_of(map@, p[0]), p.skip(1), q.skip(1));
                }
            }
            _ => {}
        }
    }
}

/// A tree without a value at `p` satisfies the removal contract unchanged.
pub proof fn lemma_removed_noop(t: Constants, p: Seq<Seq<char>>)
    requires
        t.spec_get(p) is None,
    ensures
        spec_removed(t, t, p),
{
    assert forall|q: Seq<Seq<char>>| p.is_prefix_of(q) implies (#[trigger] t.spec_get(q))
        is None by {
        lemma_get_none_extends(t, p, q);
    }
}

/// Lift the insertion contract one object level up: the parent's map keeps
/// every other field and maps `p[0]` to a child for which the contract
/// holds one level down.
pub proof fn lemma_added_lift(
    pre: Constants,
    post: Constants,
    p: Seq<Seq<char>>,
    v: Constants,
    prechild: Constants,
    postchild: Constants,
)
    requires
        p.len() > 0,
        pre is Object,
        post is Object,
        uniq_keys(pre->map@),
        uniq_keys(post->map@),
        has_key(post->map@, p[0]),
        val_of(post->map@, p[0]) == postchild,
        forall|k: Seq<char>| k != p[0] ==> has_key(post->map@, k) == has_key(pre->map@, k),
        forall|k: Seq<char>|
            k != p[0] && has_key(pre->map@, k) ==> val_of(post->map@, k) == val_of(pre->map@, k),
        if has_key(pre->map@, p[0]) {
            val_of(pre->map@, p[0]) == prechild
        } else {
            prechild == Constants::Null
        },
        spec_added(prechild, postchild, p.skip(1), v),
    ensures
        spec_added(pre, post, p, v),
{
    assert(post.spec_get(p) == postchild.spec_get(p.skip(1)));
    // Paths that neither contain nor extend the inserted one read as before.
    assert forall|q: Seq<Seq<char>>|
        !q.is_prefix_of(p) && !p.is_prefix_of(q) implies (#[trigger] post.spec_get(q))
        == pre.spec_get(q) by {
        if q.len() == 0 {
            assert(q.is_prefix_of(p));
        } else if q[0] == p[0] {
            lemma_prefix_skip(q, p);
            lemma_prefix_skip(p, q);
            assert(!q.skip(1).is_prefix_of(p.skip(1)) && !p.skip(1).is_prefix_of(q.skip(1)));
            assert(postchild.spec_get(q.skip(1)) == prechild.spec_get(q.skip(1)));
            if has_key(pre->map@, p[0]) {
                assert(pre.spec_get(q) == prechild.spec_get(q.skip(1)));
            } else {
                assert(pre.spec_get(q) is None);
                if q.skip(1).len() == 0 {
                    assert(q =~= p.subrange(0, 1));
                    assert(q.is_prefix_of(p));
                }
                assert(prechild.spec_get(q.skip(1)) is None);
            }
        } else {
            if has_key(pre->map@, q[0]) {
                assert(post.spec_get(q) == val_of(post->map@, q[0]).spec_get(q.skip(1)));
            }
        }
    }
    // Every proper prefix of the inserted path reads as an object.
    assert forall|q: Seq<Seq<char>>|
        q.len() < p.len() && q.is_prefix_of(p) implies ((#[trigger] post.spec_get(q)) matches Some(
            c,
        ) && c is Object) by {
        if q.len() > 0 {
            assert(q[0] == p[0]);
            lemma_prefix_skip(q, p);
            assert(post.spec_get(q) == postchild.spec_get(q.skip(1)));
        }
    }
}

/// Lift the removal contract one object level up.
pub proof fn lemma_removed_lift(
    pre: Constants,
    post: Constants,
    p: Seq<Seq<char>>,
    prechild: Constants,
    postchild: Constants,
)
    requires
        p.len() > 0,
        pre is Object,
        post is Object,
        uniq_keys(pre->map@),
        uniq_keys(post->map@),
        has_key(pre->map@, p[0]),
        val_of(pre->map@, p[0]) == prechild,
        has_key(post->map@, p[0]),
        val_of(post->map@, p[0]) == postchild,
        forall|k: Seq<char>| k != p[0] ==> has_key(post->map@, k) == has_key(pre->map@, k),
        forall|k: Seq<char>|
            k != p[0] && has_key(pre->map@, k) ==> val_of(post->map@, k) == val_of(pre->map@, k),
        spec_removed(prechild, postchild, p.skip(1)),
    ensures
        spec_removed(pre, post, p),
{
    assert forall|q: Seq<Seq<char>>|
        !q.is_prefix_of(p) && !p.is_prefix_of(q) implies (#[trigger] post.spec_get(q))
        == pre.spec_get(q) by {
        if q.len() == 0 {
            assert(q.is_prefix_of(p));
        } else if q[0] == p[0] {
            lemma_prefix_skip(q, p);
            lemma_prefix_skip(p, q);
            assert(postchild.spec_get(q.skip(1)) == prechild.spec_get(q.skip(1)));
        } else {
            if has_key(pre->map@, q[0]) {
                assert(post.spec_get(q) == val_of(post->map@, q[0]).spec_get(q.skip(1)));
            }
        }
    }
    assert forall|q: Seq<Seq<char>>| p.is_prefix_of(q) implies (#[trigger] post.spec_get(q))
        is None by {
        assert(q.len() >= p.len());
        assert(q[0] == p[0]);
        assert(p.skip(1).is_prefix_of(q.skip(1))) by {
            assert(p.skip(1) =~= q.skip(1).subrange(0, p.len() - 1));
        }
        assert(post.spec_get(q) == postchild.spec_get(q.skip(1)));
    }
}

impl Constants {
    /// Would inserting at the names of `path` from position `d` on clash
    /// with an existing value?
    fn conflicts_at(&self, path: &Vec<String>, d: usize) -> (r: bool)
        requires
            d <= path@.len(),
            self.wf(),
        ensures
            r == self.spec_conflicts(path_view(path@).skip(d as int)),
        decreases path@.len() - d,
    {
        let ghost p = path_view(path@).skip(d as int);
        if d == path.len() {
            proof {
                assert(p.len() == 0);
            }
            match self {
                Constants::Null => false,
                _ => true,
            }
        } else {
            proof {
                lemma_path_view_skip(path@, d as int);
            }
            match self {
                Constants::Object { map } => {
                    match find_key(map, &path[d]) {
                        Some(i) => {
                            proof {
                                lemma_key_at(map@, path@[d as int]@, i as int);
                                assert((#[trigger] map@[i as int].1).wf());
                            }
                            map[i].1.conflicts_at(path, d + 1)
                        }
                        None => false,
                    }
                }
                Constants::Null => false,
                _ => true,
            }
        }
    }

    /// Insert `value` at the names of `path` from position `d` on; callers
    /// have ruled a clash out.
    fn add_value_at(&mut self, path: &Vec<String>, d: usize, value: Constants)
        requires
            d <= path@.len(),
            old(self).wf(),
            value.wf(),
            !old(self).spec_conflicts(path_view(path@).skip(d as int)),
        ensures
            final(self).wf(),
            spec_added(*old(self), *final(self), path_view(path@).skip(d as int), value),
        decreases path@.len() - d,
    {
        let ghost pre = *self;
        let ghost p = path_view(path@).skip(d as int);
        if d == path.len() {
            proof {
                assert(p.len() == 0);
                assert(pre is Null);
            }
            *self = value;
            proof {
                assert(self.spec_get(p) == Some(value));
                assert forall|q: Seq<Seq<char>>|
                    !q.is_prefix_of(p) && !p.is_prefix_of(q) implies (#[trigger] self.spec_get(q))
                    == pre.spec_get(q) by {
                    assert(p =~= q.subrange(0, 0));
                    assert(p.is_prefix_of(q));
                }
            }
            return ;
        }
        proof {
            lemma_path_view_skip(path@, d as int);
        }
        if let Constants::Null = self {
            *self = Constants::Object { map: Vec::new() };
        }
        let ghost mid = *self;
        proof {
            // The promoted empty object reads exactly as the null tree did,
            // except at the (previously absent) target path.
            if pre is Null {
                assert forall|q: Seq<Seq<char>>|
                    !q.is_prefix_of(p) && !p.is_prefix_of(q) implies (#[trigger] mid.spec_get(q))
                    == pre.spec_get(q) by {
                    if q.len() == 0 {
                        assert(q.is_prefix_of(p));
                    } else {
                        assert(!has_key(mid->map@, q[0]));
                    }
                }
                assert(!mid.spec_conflicts(p));
            } else {
                assert(mid == pre);
            }
            assert(mid is Object);
        }
        match self {
            Constants::Object { map } => {
                let ghost m1 = map@;
                match find_key(map, &path[d]) {
                    Some(i) => {
                        proof {
                            lemma_key_at(m1, p[0], i as int);
                            assert((#[trigger] m1[i as int].1).wf());
                        }
                        map[i].1.add_value_at(path, d + 1, value);
                        proof {
                            let m2 = map@;
                            assert(m2[i as int] =~= (m1[i as int].0, m2[i as int].1));
                            assert(m2 =~= m1.update(i as int, (m1[i as int].0, m2[i as int].1)));
                            crate::kv::lemma_update_val(m1, i as int, m2[i as int].1);
                            assert forall|t: int| 0 <= t < m2.len() implies (#[trigger] m2[t].1).wf()
                            by {
                                if t != i as int {
                                    assert(m2[t].1 == m1[t].1);
                                    assert((#[trigger] m1[t].1).wf());
                                }
                            }
                            lemma_added_lift(
                                mid,
                                *self,
                                p,
                                value,
                                m1[i as int].1,
                                m2[i as int].1,
                            );
                        }
                    }
                    None => {
                        let key = path[d].clone();
                        map.push((key, Constants::Null));
                        let n = map.len() - 1;
                        proof {
                            crate::kv::lemma_push_entry(m1, map@[n as int].0, Constants::Null);
                            lemma_key_at(map@, p[0], n as int);
                            assert(map@[n as int].1 == Constants::Null);
                            assert(!Constants::Null.spec_conflicts(p.skip(1)));
                        }
                        let ghost mpush = map@;
                        map[n].1.add_value_at(path, d + 1, value);
                        proof {
                            let m2 = map@;
                            assert(m2[n as int] =~= (mpush[n as int].0, m2[n as int].1));
                            assert(m2 =~= mpush.update(
                                n as int,
                                (mpush[n as int].0, m2[n as int].1),
                            ));
                            crate::kv::lemma_update_val(mpush, n as int, m2[n as int].1);
                            assert forall|t: int| 0 <= t < m2.len() implies (#[trigger] m2[t].1).wf()
                            by {
                                if t < n as int {
                                    assert(m2[t].1 == m1[t].1);
                                    assert((#[trigger] m1[t].1).wf());
                                }
                            }
                            assert forall|k: Seq<char>|
                                k != p[0] implies has_key(m2, k) == has_key(m1, k) by {
                                assert(has_key(m2, k) == has_key(mpush, k));
                            }
                            lemma_added_lift(mid, *self, p, value, Constants::Null, m2[n as int].1);
                        }
                    }
                }
            }
            _ => {
                proof {
                    assert(false);
                }
            }
        }
        proof {
            // Chain the promoted step back to the original null tree.
            if pre is Null {
                assert forall|q: Seq<Seq<char>>|
                    !q.is_prefix_of(p) && !p.is_prefix_of(q) implies (#[trigger] self.spec_get(q))
                    == pre.spec_get(q) by {
                    assert(self.spec_get(q) == mid.spec_get(q));
                    assert(mid.spec_get(q) == pre.spec_get(q));
                }
            }
        }
    }

    /// Insert `value` at `key`, auto-creating intermediate objects along
    /// null or absent steps. Reports `true` on a clash — an existing
    /// non-object, non-null node on the way, or an occupied final slot —
    /// and then leaves the tree untouched.
    pub fn add_option(&mut self, key: &OptionLocation, value: Constants) -> (conflict: bool)
        requires
            old(self).wf(),
            value.wf(),
        ensures
            final(self).wf(),
            conflict == old(self).spec_conflicts(path_view(key@)),
            conflict ==> *final(self) == *old(self),
            !conflict ==> spec_added(*old(self), *final(self), path_view(key@), value),
    {
        proof {
            assert(path_view(key@).skip(0) =~= path_view(key@));
        }
        if self.conflicts_at(key, 0) {
            return true;
        }
        self.add_value_at(key, 0, value);
        false
    }

    /// Remove the value at the names of `path` from position `d` on; a path
    /// that does not resolve leaves the tree untouched.
    fn remove_key_at(&mut self, path: &Vec<String>, d: usize)
        requires
            d < path@.len(),
            old(self).wf(),
        ensures
            final(self).wf(),
            spec_removed(*old(self), *final(self), path_view(path@).skip(d as int)),
        decreases path@.len() - d,
    {
        let ghost pre = *self;
        let ghost p = path_view(path@).skip(d as int);
        proof {
            lemma_path_view_skip(path@, d as int);
        }
        match self {
            Constants::Object { map } => {
                let ghost m1 = map@;
                match find_key(map, &path[d]) {
                    Some(i) => {
                        proof {
                            lemma_key_at(m1, p[0], i as int);
                            assert((#[trigger] m1[i as int].1).wf());
                        }
                        let n = path.len();
                        if d + 1 == n {
                            map.remove(i);
                            proof {
                                let m2 = map@;
                                lemma_remove_entry(m1, i as int);
                                assert forall|t: int|
                                    0 <= t < m2.len() implies (#[trigger] m2[t].1).wf() by {
                                    if t < i as int {
                                        assert(m2[t].1 == m1[t].1);
                                        assert((#[trigger] m1[t].1).wf());
                                    } else {
                                        assert(m2[t].1 == m1[t + 1].1);
                                        assert((#[trigger] m1[t + 1].1).wf());
                                    }
                                }
                                assert(p.len() == 1);
                                assert forall|q: Seq<Seq<char>>|
                                    !q.is_prefix_of(p) && !p.is_prefix_of(q) implies (
                                #[trigger] self.spec_get(q)) == pre.spec_get(q) by {
                                    if q.len() == 0 {
                                        assert(q.is_prefix_of(p));
                                    } else if q[0] == p[0] {
                                        assert(p =~= q.subrange(0, 1));
                                        assert(p.is_prefix_of(q));
                                    } else {
                                        if has_key(m1, q[0]) {
                                            assert(self.spec_get(q) == val_of(m2, q[0]).spec_get(
                                                q.skip(1),
                                            ));
                                        }
                                    }
                                }
                                assert forall|q: Seq<Seq<char>>|
                                    p.is_prefix_of(q) implies (#[trigger] self.spec_get(q))
                                    is None by {
                                    assert(q.len() >= 1 && q[0] == p[0]);
                                    assert(!has_key(m2, q[0]));
                                }
                            }
                        } else {
                            map[i].1.remove_key_at(path, d + 1);
                            proof {
                                let m2 = map@;
                                assert(m2[i as int] =~= (m1[i as int].0, m2[i as int].1));
                                assert(m2 =~= m1.update(
                                    i as int,
                                    (m1[i as int].0, m2[i as int].1),
                                ));
                                crate::kv::lemma_update_val(m1, i as int, m2[i as int].1);
                                assert forall|t: int|
                                    0 <= t < m2.len() implies (#[trigger] m2[t].1).wf() by {
                                    if t != i as int {
                                        assert(m2[t].1 == m1[t].1);
                                        assert((#[trigger] m1[t].1).wf());
                                    }
                                }
                                lemma_removed_lift(pre, *self, p, m1[i as int].1, m2[i as int].1);
                            }
                        }
                    }
                    None => {
                        proof {
                            assert(pre.spec_get(p) is None);
                            lemma_removed_noop(pre, p);
                        }
                    }
                }
            }
            _ => {
                proof {
                    assert(pre.spec_get(p) is None);
                    lemma_removed_noop(pre, p);
                }
            }
        }
    }

    /// Remove the value at `key` and everything under it; a path that does
    /// not resolve, or a null tree, is left untouched.
    pub fn remove_key(&mut self, key: &OptionLocation)
        requires
            old(self).wf(),
            key@.len() > 0,
        ensures
            final(self).wf(),
            spec_removed(*old(self), *final(self), path_view(key@)),
    {
        proof {
            assert(path_view(key@).skip(0) =~= path_view(key@));
        }
        self.remove_key_at(key, 0);
    }

    /// Read the value at the names of `path` from position `d` on.
    fn get_at(&self, path: &Vec<String>, d: usize) -> (r: Option<&Constants>)
        requires
            d <= path@.len(),
            self.wf(),
        ensures
            match r {
                Some(c) => self.spec_get(path_view(path@).skip(d as int)) == Some(*c),
                None => self.spec_get(path_view(path@).skip(d as int)) is None,
            },
        decreases path@.len() - d,
    {
        let ghost p = path_view(path@).skip(d as int);
        if d == path.len() {
            proof {
                assert(p.len() == 0);
            }
            Some(self)
        } else {
            proof {
                lemma_path_view_skip(path@, d as int);
            }
            match self {
                Constants::Object { map } => {
                    match find_key(map, &path[d]) {
                        Some(i) => {
                            proof {
                                lemma_key_at(map@, p[0], i as int);
                                assert((#[trigger] map@[i as int].1).wf());
                            }
                            map[i].1.get_at(path, d + 1)
                        }
                        None => None,
                    }
                }
                _ => None,
            }
        }
    }

    /// Read the value stored at `key`, `None` when the path does not
    /// resolve.
    pub fn get_path(&self, key: &OptionLocation) -> (r: Option<&Constants>)
        requires
            self.wf(),
        ensures
            match r {
                Some(c) => self.spec_get(path_view(key@)) == Some(*c),
                None => self.spec_get(path_view(key@)) is None,
            },
    {
        proof {
            assert(path_view(key@).skip(0) =~= path_view(key@));
        }
        self.get_at(key, 0)
    }
}

/// Constant path round-trip: inserting a value at a non-clashing path makes
/// it readable there, and removing that path afterwards makes it read as
/// absent again.
pub proof fn lemma_path_round_trip(
    pre: Constants,
    mid: Constants,
    post: Constants,
    p: Seq<Seq<char>>,
    v: Constants,
)
    requires
        !pre.spec_conflicts(p),
        spec_added(pre, mid, p, v),
        spec_removed(mid, post, p),
    ensures
        mid.spec_get(p) == Some(v),
        post.spec_get(p) is None,
{
    assert(p.is_prefix_of(p)) by {
        assert(p =~= p.subrange(0, p.len() as int));
    }
}

/// Driver nesting rejected: a request for the zero value of a type whose
/// `Driver` directly wraps another `Driver` is never honoured, whatever the
/// inner type.
pub proof fn lemma_driver_nesting_rejected(d: Box<ConstantsType>)
    requires
        *d is Driver,
    ensures
        !ConstantsType::Driver(d).spec_valid_default(),
{
}

} // verus!
