//! The runtime object model: tagged values, structural equality, hash-key
//! derivation, and the chained lexical environments that bind names to heap
//! handles.

use crate::ast::{
    duplicate_stmts, duplicate_strings, views_of_stmts, views_of_strings, BlockStmt, StatementV,
};
use crate::builtin::BuiltInFnt;
use vstd::prelude::*;

verus! {

broadcast use vstd::std_specs::vec::group_vec_axioms, vstd::seq::group_seq_axioms;

/// A handle to one heap box of the collector: the box's slot index together
/// with the generation the slot had when the handle was made.  A handle is
/// valid only while the slot is live in that same generation.
#[derive(Debug, Clone, Copy, PartialEq, Eq, Structural)]
pub struct ObjRef {
    pub idx: usize,
    pub gen: u64,
}

/// One lexical scope: ordered name/handle bindings plus an optional handle of
/// the enclosing scope in the environment arena.  Children never mutate their
/// parents, and a parent always sits at a smaller arena index than its
/// children, so the chain of scopes is acyclic by construction.
#[derive(Debug)]
pub struct Environment {
    pub store: Vec<(String, ObjRef)>,
    pub outer: Option<usize>,
}

/// The mathematical value of an [`Environment`].
pub ghost struct EnvV {
    pub store: Seq<(Seq<char>, ObjRef)>,
    pub outer: Option<int>,
}

impl View for Environment {
    type V = EnvV;

    open spec fn view(&self) -> EnvV {
        EnvV {
            store: Seq::new(self.store@.len(), |i: int| (self.store@[i].0@, self.store@[i].1)),
            outer: match self.outer {
                Some(o) => Some(o as int),
                None => None,
            },
        }
    }
}

/// The views of the environments of `s`, in order.
pub open spec fn views_of_envs(s: Seq<Environment>) -> Seq<EnvV> {
    Seq::new(s.len(), |i: int| s[i]@)
}

/// The handle bound to `name` in `store`, scanning bindings in insertion
/// order and keeping the first match.
pub open spec fn first_binding(store: Seq<(Seq<char>, ObjRef)>, name: Seq<char>) -> Option<ObjRef>
    decreases store.len(),
{
    if store.len() == 0 {
        None
    } else if store[0].0 == name {
        Some(store[0].1)
    } else {
        first_binding(store.drop_first(), name)
    }
}

/// The handle that `name` resolves to, starting at environment `at` of the
/// arena `envs`: the first local binding, else the result in the enclosing
/// scope.  A malformed chain (an index out of range, or an outer link that
/// does not point to an earlier arena entry) resolves to nothing.
pub open spec fn lookup_in_chain(envs: Seq<EnvV>, at: int, name: Seq<char>) -> Option<ObjRef>
    decreases at,
{
    if at < 0 || at >= envs.len() {
        None
    } else {
        match first_binding(envs[at].store, name) {
            Some(r) => Some(r),
            None => match envs[at].outer {
                Some(o) => if 0 <= o < at {
                    lookup_in_chain(envs, o, name)
                } else {
                    None
                },
                None => None,
            },
        }
    }
}

impl Environment {
    /// An empty scope with no enclosing scope.
    pub fn new() -> (e: Environment)
        ensures
            e@.store == Seq::<(Seq<char>, ObjRef)>::empty(),
            e@.outer is None,
    {
        let e = Environment { store: Vec::new(), outer: None };
        proof {
            assert(e@.store =~= Seq::<(Seq<char>, ObjRef)>::empty());
        }
        e
    }

    /// An empty scope enclosed by the environment at arena index `outer`.
    pub fn new_enclosed_env(outer: usize) -> (e: Environment)
        ensures
            e@.store == Seq::<(Seq<char>, ObjRef)>::empty(),
            e@.outer == Some(outer as int),
    {
        let e = Environment { store: Vec::new(), outer: Some(outer) };
        proof {
            assert(e@.store =~= Seq::<(Seq<char>, ObjRef)>::empty());
        }
        e
    }

    /// Appends the binding `ident` to `obj`; earlier bindings of the same
    /// name are kept and still take precedence on lookup.
    pub fn push(&mut self, ident: String, obj: ObjRef)
        ensures
            final(self)@.store == old(self)@.store.push((ident@, obj)),
            final(self)@.outer == old(self)@.outer,
    {
        let ghost pre = self@.store;
        self.store.push((ident, obj));
        proof {
            assert(self@.store =~= pre.push((ident@, obj)));
        }
    }

    /// The handle bound to `ident`, resolved through the scope chain that
    /// starts at arena index `at`: local bindings first in insertion order,
    /// then the enclosing scopes.
    pub fn get(envs: &Vec<Environment>, at: usize, ident: &str) -> (r: Option<ObjRef>)
        ensures
            r == lookup_in_chain(views_of_envs(envs@), at as int, ident@),
    {
        let ghost evs = views_of_envs(envs@);
        let mut cur: usize = at;
        loop
            invariant
                evs == views_of_envs(envs@),
                lookup_in_chain(evs, at as int, ident@) == lookup_in_chain(evs, cur as int, ident@),
            decreases cur,
        {
            if cur >= envs.len() {
                return None;
            }
            let e = &envs[cur];
            let n = e.store.len();
            let mut i: usize = 0;
            proof {
                assert(e@.store.skip(0) =~= e@.store);
            }
            while i < n
                invariant
                    n == e.store@.len(),
                    0 <= i <= n,
                    e@ == evs[cur as int],
                    cur < evs.len(),
                    evs == views_of_envs(envs@),
                    lookup_in_chain(evs, at as int, ident@) == lookup_in_chain(
                        evs,
                        cur as int,
                        ident@,
                    ),
                    first_binding(e@.store, ident@) == first_binding(
                        e@.store.skip(i as int),
                        ident@,
                    ),
                decreases n - i,
            {
                let ghost tail = e@.store.skip(i as int);
                proof {
                    assert(tail[0] == e@.store[i as int]);
                    assert(tail.len() > 0);
                }
                if crate::token::str_equal(e.store[i].0.as_str(), ident) {
                    proof {
                        assert(first_binding(tail, ident@) == Some(tail[0].1));
                        assert(lookup_in_chain(evs, cur as int, ident@) == Some(
                            e@.store[i as int].1,
                        ));
                    }
                    return Some(e.store[i].1);
                }
                proof {
                    assert(first_binding(tail, ident@) == first_binding(
                        tail.drop_first(),
                        ident@,
                    ));
                    assert(tail.drop_first() =~= e@.store.skip(i as int + 1));
                }
                i += 1;
            }
            proof {
                assert(e@.store.skip(n as int) =~= Seq::<(Seq<char>, ObjRef)>::empty());
            }
            match e.outer {
                Some(o) => {
                    if o < cur {
                        cur = o;
                    } else {
                        return None;
                    }
                },
                None => {
                    return None;
                },
            }
        }
    }
}

/// The kind of value a hash key was derived from.
#[derive(Debug, Clone, Copy, PartialEq, Eq, Structural)]
pub enum HashKeyType {
    Boolean,
    Integer,
    Str,
}

/// A derived, comparable digest used to index hashes: the kind of the source
/// value together with a 64-bit digest of it.  Two keys are equal exactly
/// when both parts are; string digests may collide across distinct strings.
#[derive(Debug, Clone, Copy, PartialEq, Eq, Structural)]
pub struct HashKey {
    pub obj_type: HashKeyType,
    pub value: u64,
}

/// One key/value entry of a hash, keeping the key object alongside the value.
#[derive(Debug)]
pub struct HashPair {
    pub key: Object,
    pub value: Object,
}

/// An unordered mapping from derived hash keys to key/value pairs, stored as
/// an association vector whose keys are unique; inserting an existing key
/// overwrites its pair.
#[derive(Debug)]
pub struct Hash {
    pub pairs: Vec<(HashKey, HashPair)>,
}

/// A function value: its parameter names, its body, and the arena handle of
/// the environment it was created in.  The handle does not own that
/// environment; resolving through it is checked for liveness at call time.
#[derive(Debug)]
pub struct FunctionObj {
    pub parameters: Vec<String>,
    pub body: BlockStmt,
    pub env: usize,
}

/// A runtime value.  `ReturnValue` is the internal signal that a `return`
/// statement raises; `DeclareVariable` the printless result of a `let`;
/// `BuiltIn` a host function named by its tag.
#[derive(Debug)]
pub enum Object {
    Integer(i64),
    Boolean(bool),
    String(String),
    ReturnValue(Box<Object>),
    Function(FunctionObj),
    Array(Vec<Object>),
    Hash(Hash),
    BuiltIn(BuiltInFnt),
    DeclareVariable,
    Null,
}

/// The mathematical value of a [`FunctionObj`].
pub ghost struct FunctionObjV {
    pub parameters: Seq<Seq<char>>,
    pub body: Seq<StatementV>,
    pub env: int,
}

/// The mathematical value of an [`Object`].  A hash becomes the sequence of
/// its entries, each a derived key with the key and value objects.
pub enum ObjectV {
    Integer(int),
    Boolean(bool),
    String(Seq<char>),
    ReturnValue(Box<ObjectV>),
    Function(FunctionObjV),
    Array(Seq<ObjectV>),
    Hash(Seq<(HashKey, (ObjectV, ObjectV))>),
    BuiltIn(BuiltInFnt),
    DeclareVariable,
    Null,
}

/// The views of the objects of `s`, in order.
pub open spec fn views_of_objs(s: Seq<Object>) -> Seq<ObjectV>
    decreases s,
{
    if s.len() == 0 {
        Seq::empty()
    } else {
        views_of_objs(s.drop_last()).push(s.last()@)
    }
}

/// The views of the hash entries of `s`, in order.
pub open spec fn views_of_pairs(s: Seq<(HashKey, HashPair)>) -> Seq<(HashKey, (ObjectV, ObjectV))>
    decreases s,
{
    if s.len() == 0 {
        Seq::empty()
    } else {
        views_of_pairs(s.drop_last()).push(
            (s.last().0, (s.last().1.key@, s.last().1.value@)),
        )
    }
}

impl View for Object {
    type V = ObjectV;

    open spec fn view(&self) -> ObjectV
        decreases self,
    {
        match self {
            Object::Integer(n) => ObjectV::Integer(*n as int),
            Object::Boolean(b) => ObjectV::Boolean(*b),
            Object::String(s) => ObjectV::String(s@),
            Object::ReturnValue(b) => ObjectV::ReturnValue(Box::new((**b)@)),
            Object::Function(f) => ObjectV::Function(
                FunctionObjV {
                    parameters: views_of_strings(f.parameters@),
                    body: views_of_stmts(f.body@),
                    env: f.env as int,
                },
            ),
            Object::Array(v) => ObjectV::Array(views_of_objs(v@)),
            Object::Hash(h) => ObjectV::Hash(views_of_pairs(h.pairs@)),
            Object::BuiltIn(b) => ObjectV::BuiltIn(*b),
            Object::DeclareVariable => ObjectV::DeclareVariable,
            Object::Null => ObjectV::Null,
        }
    }
}

/// `views_of_objs` maps each element to its view.
pub broadcast proof fn lemma_views_of_objs(s: Seq<Object>)
    ensures
        (#[trigger] views_of_objs(s)).len() == s.len(),
        forall|i: int| 0 <= i < s.len() ==> views_of_objs(s)[i] == s[i]@,
    decreases s,
{
    if s.len() > 0 {
        lemma_views_of_objs(s.drop_last());
        assert(views_of_objs(s) == views_of_objs(s.drop_last()).push(s.last()@));
    }
}

/// `views_of_pairs` maps each entry to its view.
pub broadcast proof fn lemma_views_of_pairs(s: Seq<(HashKey, HashPair)>)
    ensures
        (#[trigger] views_of_pairs(s)).len() == s.len(),
        forall|i: int|
            0 <= i < s.len() ==> views_of_pairs(s)[i] == (
                s[i].0,
                (s[i].1.key@, s[i].1.value@),
            ),
    decreases s,
{
    if s.len() > 0 {
        lemma_views_of_pairs(s.drop_last());
        assert(views_of_pairs(s) == views_of_pairs(s.drop_last()).push(
            (s.last().0, (s.last().1.key@, s.last().1.value@)),
        ));
    }
}

/// Structural equality of two object values, per variant: numbers, booleans,
/// strings and the unit values compare by content, a wrapped return value by
/// what it wraps, arrays elementwise, hashes as unordered key/pair tables,
/// built-ins by tag.  Two function values are never equal.
pub open spec fn obj_eq_v(a: ObjectV, b: ObjectV) -> bool
    decreases a,
{
    match (a, b) {
        (ObjectV::Integer(x), ObjectV::Integer(y)) => x == y,
        (ObjectV::Boolean(x), ObjectV::Boolean(y)) => x == y,
        (ObjectV::String(x), ObjectV::String(y)) => x == y,
        (ObjectV::ReturnValue(x), ObjectV::ReturnValue(y)) => obj_eq_v(*x, *y),
        (ObjectV::Array(x), ObjectV::Array(y)) => arr_eq_v(x, y),
        (ObjectV::Hash(x), ObjectV::Hash(y)) => x.len() == y.len() && hash_sub_v(x, y),
        (ObjectV::BuiltIn(x), ObjectV::BuiltIn(y)) => x == y,
        (ObjectV::DeclareVariable, ObjectV::DeclareVariable) => true,
        (ObjectV::Null, ObjectV::Null) => true,
        _ => false,
    }
}

/// Elementwise structural equality of two object sequences.
pub open spec fn arr_eq_v(x: Seq<ObjectV>, y: Seq<ObjectV>) -> bool
    decreases x,
{
    if x.len() != y.len() {
        false
    } else if x.len() == 0 {
        true
    } else {
        obj_eq_v(x.last(), y.last()) && arr_eq_v(x.drop_last(), y.drop_last())
    }
}

/// The first entry of `p` whose derived key equals `k`.
pub open spec fn hash_find_v(p: Seq<(HashKey, (ObjectV, ObjectV))>, k: HashKey) -> Option<
    (ObjectV, ObjectV),
>
    decreases p.len(),
{
    if p.len() == 0 {
        None
    } else if p[0].0 == k {
        Some(p[0].1)
    } else {
        hash_find_v(p.drop_first(), k)
    }
}

/// Whether every entry of `x` appears in `y`: same derived key, and key and
/// value objects structurally equal.
pub open spec fn hash_sub_v(
    x: Seq<(HashKey, (ObjectV, ObjectV))>,
    y: Seq<(HashKey, (ObjectV, ObjectV))>,
) -> bool
    decreases x,
{
    if x.len() == 0 {
        true
    } else {
        (match hash_find_v(y, x.last().0) {
            Some(pair) => obj_eq_v(x.last().1.0, pair.0) && obj_eq_v(x.last().1.1, pair.1),
            None => false,
        }) && hash_sub_v(x.drop_last(), y)
    }
}

/// The display name of an object value's type.
pub open spec fn type_str_of(o: ObjectV) -> Seq<char> {
    match o {
        ObjectV::Integer(_) => "integer"@,
        ObjectV::Boolean(_) => "boolean"@,
        ObjectV::String(_) => "string"@,
        ObjectV::ReturnValue(_) => "return_value"@,
        ObjectV::Function(_) => "function"@,
        ObjectV::Array(_) => "array"@,
        ObjectV::Hash(_) => "hash"@,
        ObjectV::BuiltIn(b) => crate::builtin::builtin_label(b),
        ObjectV::DeclareVariable => "declare"@,
        ObjectV::Null => "null"@,
    }
}

/// The value of `n` under the two's-complement reading of the low 64 bits.
pub open spec fn as_u64_wrap(n: int) -> u64 {
    (n % 0x1_0000_0000_0000_0000) as u64
}

/// The additive checksum of a byte sequence: the 64-bit wrapping sum of its
/// bytes.  It is weak on purpose: distinct strings, anagrams among them, may
/// share a checksum.
pub open spec fn str_checksum(bytes: Seq<u8>) -> u64
    decreases bytes,
{
    if bytes.len() == 0 {
        0
    } else {
        as_u64_wrap(str_checksum(bytes.drop_last()) + bytes.last())
    }
}

/// The derived hash key of an object value: defined exactly for booleans,
/// integers and strings.  A boolean digests to 0 or 1, an integer to its
/// two's-complement bits, a string to the additive checksum of its UTF-8
/// bytes.
pub open spec fn hash_key_of(o: ObjectV) -> Option<HashKey> {
    match o {
        ObjectV::Boolean(b) => Some(
            HashKey {
                obj_type: HashKeyType::Boolean,
                value: if b {
                    1
                } else {
                    0
                },
            },
        ),
        ObjectV::Integer(n) => Some(HashKey { obj_type: HashKeyType::Integer, value: as_u64_wrap(n) }),
        ObjectV::String(s) => Some(
            HashKey { obj_type: HashKeyType::Str, value: str_checksum(vstd::utf8::encode_utf8(s)) },
        ),
        _ => None,
    }
}

impl HashPair {
    /// The pair holding `key` and `value`.
    pub fn new(key: Object, value: Object) -> (r: HashPair)
        ensures
            r.key@ == key@,
            r.value@ == value@,
    {
        HashPair { key, value }
    }

    /// A copy of the value object of this pair.
    pub fn value(&self) -> (r: Object)
        ensures
            r@ == self.value@,
    {
        self.value.duplicate()
    }
}

impl Object {
    /// The display name of this object's type, as used in error messages.
    pub fn type_str(&self) -> (r: &'static str)
        ensures
            r@ == type_str_of(self@),
    {
        match self {
            Object::Integer(_) => "integer",
            Object::Boolean(_) => "boolean",
            Object::String(_) => "string",
            Object::ReturnValue(_) => "return_value",
            Object::Function(_) => "function",
            Object::Array(_) => "array",
            Object::Hash(_) => "hash",
            Object::BuiltIn(b) => b.name(),
            Object::DeclareVariable => "declare",
            Object::Null => "null",
        }
    }

    /// A copy of this object whose value is the same.
    pub fn duplicate(&self) -> (r: Object)
        ensures
            r@ == self@,
        decreases self,
    {
        match self {
            Object::Integer(n) => Object::Integer(*n),
            Object::Boolean(b) => Object::Boolean(*b),
            Object::String(s) => Object::String(s.clone()),
            Object::ReturnValue(b) => Object::ReturnValue(Box::new((**b).duplicate())),
            Object::Function(f) => Object::Function(f.duplicate_fn()),
            Object::Array(v) => Object::Array(duplicate_objs(v)),
            Object::Hash(h) => Object::Hash(Hash { pairs: duplicate_pairs(&h.pairs) }),
            Object::BuiltIn(b) => Object::BuiltIn(*b),
            Object::DeclareVariable => Object::DeclareVariable,
            Object::Null => Object::Null,
        }
    }

    /// Structural equality with `other`, as the language's `==` sees it.
    #[verifier::rlimit(100)]
    pub fn equals(&self, other: &Object) -> (r: bool)
        ensures
            r == obj_eq_v(self@, other@),
        decreases self,
    {
        broadcast use lemma_views_of_pairs;

        match (self, other) {
            (Object::Integer(x), Object::Integer(y)) => {
                let r = *x == *y;
                proof {
                    assert(r == obj_eq_v(self@, other@));
                }
                r
            },
            (Object::Boolean(x), Object::Boolean(y)) => {
                let r = *x == *y;
                proof {
                    assert(r == obj_eq_v(self@, other@));
                }
                r
            },
            (Object::String(x), Object::String(y)) => {
                let r = *x == *y;
                proof {
                    assert(r == obj_eq_v(self@, other@));
                }
                r
            },
            (Object::ReturnValue(x), Object::ReturnValue(y)) => {
                let r = (**x).equals(&**y);
                proof {
                    assert(r == obj_eq_v(self@, other@));
                }
                r
            },
            (Object::Array(x), Object::Array(y)) => {
                let r = objs_equal(x, y);
                proof {
                    assert(r == obj_eq_v(self@, other@));
                }
                r
            },
            (Object::Hash(x), Object::Hash(y)) => {
                let r = if x.pairs.len() != y.pairs.len() {
                    false
                } else {
                    hash_entries_sub(&x.pairs, &y.pairs)
                };
                proof {
                    lemma_views_of_pairs(x.pairs@);
                    lemma_views_of_pairs(y.pairs@);
                    assert(r == obj_eq_v(self@, other@));
                }
                r
            },
            (Object::BuiltIn(x), Object::BuiltIn(y)) => {
                let r = *x == *y;
                proof {
                    assert(r == obj_eq_v(self@, other@));
                }
                r
            },
            (Object::DeclareVariable, Object::DeclareVariable) => {
                proof {
                    assert(obj_eq_v(self@, other@));
                }
                true
            },
            (Object::Null, Object::Null) => {
                proof {
                    assert(obj_eq_v(self@, other@));
                }
                true
            },
            _ => {
                proof {
                    assert(!obj_eq_v(self@, other@));
                }
                false
            },
        }
    }

    /// The derived hash key of this object: defined for booleans, integers
    /// and strings, nothing for every other variant.
    pub fn hash_key(&self) -> (r: Option<HashKey>)
        ensures
            r == hash_key_of(self@),
    {
        match self {
            Object::Boolean(b) => Some(
                HashKey {
                    obj_type: HashKeyType::Boolean,
                    value: if *b {
                        1
                    } else {
                        0
                    },
                },
            ),
            Object::Integer(n) => {
                let v: u64 = if *n >= 0 {
                    *n as u64
                } else {
                    u64::MAX - ((-(*n + 1)) as u64)
                };
                proof {
                    assert(v == as_u64_wrap(*n as int));
                }
                Some(HashKey { obj_type: HashKeyType::Integer, value: v })
            },
            Object::String(s) => {
                let bytes = s.as_str().as_bytes();
                let ghost bs = bytes@;
                let n = bytes.len();
                let mut sum: u64 = 0;
                let mut i: usize = 0;
                while i < n
                    invariant
                        n == bs.len(),
                        0 <= i <= n,
                        bytes@ == bs,
                        sum == str_checksum(bs.take(i as int)),
                    decreases n - i,
                {
                    proof {
                        assert(bs.take(i as int + 1).drop_last() =~= bs.take(i as int));
                        assert(bs.take(i as int + 1).last() == bs[i as int]);
                    }
                    sum = sum.wrapping_add(bytes[i] as u64);
                    i += 1;
                }
                proof {
                    assert(bs.take(n as int) =~= bs);
                    assert(bs == vstd::utf8::encode_utf8(self@->String_0));
                    assert(sum == str_checksum(vstd::utf8::encode_utf8(self@->String_0)));
                }
                Some(HashKey { obj_type: HashKeyType::Str, value: sum })
            },
            _ => None,
        }
    }
}

/// A copy of each object of `v`, in order.
pub fn duplicate_objs(v: &Vec<Object>) -> (r: Vec<Object>)
    ensures
        views_of_objs(r@) == views_of_objs(v@),
    decreases v,
{
    broadcast use lemma_views_of_objs;

    let n = v.len();
    let mut out: Vec<Object> = Vec::new();
    let mut i: usize = 0;
    while i < n
        invariant
            n == v@.len(),
            0 <= i <= n,
            out@.len() == i,
            forall|j: int| 0 <= j < i ==> out@[j]@ == v@[j]@,
        decreases n - i,
    {
        out.push(v[i].duplicate());
        i += 1;
    }
    proof {
        assert(views_of_objs(out@) =~= views_of_objs(v@));
    }
    out
}

/// A copy of each hash entry of `v`, in order.
fn duplicate_pairs(v: &Vec<(HashKey, HashPair)>) -> (r: Vec<(HashKey, HashPair)>)
    ensures
        views_of_pairs(r@) == views_of_pairs(v@),
    decreases v,
{
    broadcast use lemma_views_of_pairs;

    let n = v.len();
    let mut out: Vec<(HashKey, HashPair)> = Vec::new();
    let mut i: usize = 0;
    while i < n
        invariant
            n == v@.len(),
            0 <= i <= n,
            out@.len() == i,
            forall|j: int|
                0 <= j < i ==> out@[j].0 == v@[j].0 && out@[j].1.key@ == v@[j].1.key@
                    && out@[j].1.value@ == v@[j].1.value@,
        decreases n - i,
    {
        let entry = &v[i];
        let copy = (
            entry.0,
            HashPair { key: entry.1.key.duplicate(), value: entry.1.value.duplicate() },
        );
        out.push(copy);
        i += 1;
    }
    proof {
        assert(views_of_pairs(out@) =~= views_of_pairs(v@));
    }
    out
}

impl FunctionObj {
    /// A function value with these parameter names, this body, and the
    /// defining environment at arena index `env`.
    pub fn new(parameters: &Vec<String>, body: &BlockStmt, env: usize) -> (r: FunctionObj)
        ensures
            r@ == (FunctionObjV {
                parameters: views_of_strings(parameters@),
                body: views_of_stmts(body@),
                env: env as int,
            }),
    {
        FunctionObj {
            parameters: duplicate_strings(parameters),
            body: duplicate_stmts(body),
            env,
        }
    }

    /// The parameter names, in order.
    pub fn get_param(&self) -> (r: &Vec<String>)
        ensures
            views_of_strings(r@) == self@.parameters,
    {
        &self.parameters
    }

    /// The body block.
    pub fn get_body(&self) -> (r: &BlockStmt)
        ensures
            views_of_stmts(r@) == self@.body,
    {
        &self.body
    }

    /// The arena handle of the defining environment.
    pub fn get_env(&self) -> (r: usize)
        ensures
            r as int == self@.env,
    {
        self.env
    }

    /// A copy of this function value.
    pub fn duplicate_fn(&self) -> (r: FunctionObj)
        ensures
            r@ == self@,
    {
        FunctionObj {
            parameters: duplicate_strings(&self.parameters),
            body: duplicate_stmts(&self.body),
            env: self.env,
        }
    }
}

impl View for FunctionObj {
    type V = FunctionObjV;

    open spec fn view(&self) -> FunctionObjV {
        FunctionObjV {
            parameters: views_of_strings(self.parameters@),
            body: views_of_stmts(self.body@),
            env: self.env as int,
        }
    }
}

/// Elementwise structural equality of two object vectors.
fn objs_equal(x: &Vec<Object>, y: &Vec<Object>) -> (r: bool)
    ensures
        r == arr_eq_v(views_of_objs(x@), views_of_objs(y@)),
    decreases x,
{
    broadcast use lemma_views_of_objs;

    let ghost xv = views_of_objs(x@);
    let ghost yv = views_of_objs(y@);
    proof {
        lemma_arr_eq_iff(xv, yv);
    }
    if x.len() != y.len() {
        return false;
    }
    let n = x.len();
    let mut i: usize = 0;
    while i < n
        invariant
            n == x@.len() == y@.len(),
            0 <= i <= n,
            xv == views_of_objs(x@),
            yv == views_of_objs(y@),
            xv.len() == yv.len() == n,
            forall|j: int| 0 <= j < i ==> obj_eq_v(xv[j], yv[j]),
        decreases n - i,
    {
        proof {
            lemma_views_of_objs(x@);
            lemma_views_of_objs(y@);
        }
        if !x[i].equals(&y[i]) {
            proof {
                assert(xv[i as int] == x@[i as int]@);
                assert(!obj_eq_v(xv[i as int], yv[i as int]));
                lemma_arr_eq_iff(xv, yv);
                assert(!(forall|j: int| 0 <= j < xv.len() ==> obj_eq_v(xv[j], yv[j])));
                assert(!arr_eq_v(xv, yv));
            }
            return false;
        }
        i += 1;
    }
    proof {
        lemma_arr_eq_iff(xv, yv);
        assert(forall|j: int| 0 <= j < xv.len() ==> obj_eq_v(xv[j], yv[j]));
        assert(arr_eq_v(xv, yv));
    }
    true
}

/// Array equality holds exactly when the lengths agree and the elements are
/// pairwise equal.
pub proof fn lemma_arr_eq_iff(x: Seq<ObjectV>, y: Seq<ObjectV>)
    ensures
        arr_eq_v(x, y) <==> (x.len() == y.len() && forall|i: int|
            0 <= i < x.len() ==> obj_eq_v(x[i], y[i])),
    decreases x,
{
    if x.len() != y.len() {
        assert(!arr_eq_v(x, y));
    } else if x.len() == 0 {
        assert(arr_eq_v(x, y));
    } else {
        let xd = x.drop_last();
        let yd = y.drop_last();
        lemma_arr_eq_iff(xd, yd);
        assert(arr_eq_v(x, y) == (obj_eq_v(x.last(), y.last()) && arr_eq_v(xd, yd)));
        if obj_eq_v(x.last(), y.last()) && arr_eq_v(xd, yd) {
            assert forall|i: int| 0 <= i < x.len() implies obj_eq_v(x[i], y[i]) by {
                if i == x.len() - 1 {
                    assert(x[i] == x.last());
                    assert(y[i] == y.last());
                } else {
                    assert(xd[i] == x[i]);
                    assert(yd[i] == y[i]);
                }
            }
        } else {
            if forall|i: int| 0 <= i < x.len() ==> obj_eq_v(x[i], y[i]) {
                assert(obj_eq_v(x[x.len() - 1], y[x.len() - 1]));
                assert(x[x.len() - 1] == x.last() && y[x.len() - 1] == y.last());
                assert forall|i: int| 0 <= i < xd.len() implies obj_eq_v(xd[i], yd[i]) by {
                    assert(xd[i] == x[i]);
                    assert(yd[i] == y[i]);
                }
                assert(false);
            }
        }
    }
}

/// The first entry of `p` matching key `k`, as the executable table walk
/// finds it.
pub(crate) fn hash_find(p: &Vec<(HashKey, HashPair)>, k: HashKey) -> (r: Option<usize>)
    ensures
        match r {
            Some(i) => i < p@.len() && p@[i as int].0 == k && hash_find_v(views_of_pairs(p@), k)
                == Some((p@[i as int].1.key@, p@[i as int].1.value@)) && forall|jj: int|
                0 <= jj < i ==> views_of_pairs(p@)[jj].0 != k,
            None => hash_find_v(views_of_pairs(p@), k) is None,
        },
{
    let ghost pv = views_of_pairs(p@);
    proof {
        lemma_views_of_pairs(p@);
        assert(pv.skip(0) =~= pv);
    }
    let n = p.len();
    let mut i: usize = 0;
    while i < n
        invariant
            n == p@.len(),
            0 <= i <= n,
            pv == views_of_pairs(p@),
            pv.len() == n,
            hash_find_v(pv, k) == hash_find_v(pv.skip(i as int), k),
            forall|jj: int| 0 <= jj < i ==> (#[trigger] pv[jj]).0 != k,
        decreases n - i,
    {
        let ghost tail = pv.skip(i as int);
        proof {
            lemma_views_of_pairs(p@);
            assert(tail[0] == pv[i as int]);
            assert(tail.len() > 0);
        }
        if p[i].0 == k {
            proof {
                assert(hash_find_v(tail, k) == Some(tail[0].1));
            }
            return Some(i);
        }
        proof {
            assert(hash_find_v(tail, k) == hash_find_v(tail.drop_first(), k));
            assert(tail.drop_first() =~= pv.skip(i as int + 1));
        }
        i += 1;
    }
    proof {
        assert(pv.skip(n as int) =~= Seq::<(HashKey, (ObjectV, ObjectV))>::empty());
    }
    None
}

/// Whether every entry of `x` appears in `y` with an equal key object and an
/// equal value object.
fn hash_entries_sub(x: &Vec<(HashKey, HashPair)>, y: &Vec<(HashKey, HashPair)>) -> (r: bool)
    ensures
        r == hash_sub_v(views_of_pairs(x@), views_of_pairs(y@)),
    decreases x,
{
    broadcast use lemma_views_of_pairs;

    let ghost xv = views_of_pairs(x@);
    let ghost yv = views_of_pairs(y@);
    let n = x.len();
    let mut i: usize = 0;
    while i < n
        invariant
            n == x@.len(),
            0 <= i <= n,
            xv == views_of_pairs(x@),
            yv == views_of_pairs(y@),
            xv.len() == n,
            hash_sub_v(xv.take(i as int), yv),
        decreases n - i,
    {
        proof {
            lemma_views_of_pairs(x@);
            lemma_views_of_pairs(y@);
            lemma_hash_sub_take_step(xv, yv, i as int);
        }
        let found = hash_find(y, x[i].0);
        match found {
            Some(j) => {
                if !x[i].1.key.equals(&y[j].1.key) || !x[i].1.value.equals(&y[j].1.value) {
                    proof {
                        assert(!hash_sub_v(xv.take(i as int + 1), yv));
                        lemma_hash_sub_prefix(xv, yv, i as int + 1);
                    }
                    return false;
                }
                proof {
                    assert(hash_sub_v(xv.take(i as int + 1), yv));
                }
            },
            None => {
                proof {
                    assert(!hash_sub_v(xv.take(i as int + 1), yv));
                    lemma_hash_sub_prefix(xv, yv, i as int + 1);
                }
                return false;
            },
        }
        i += 1;
    }
    proof {
        assert(xv.take(n as int) =~= xv);
    }
    true
}

/// Unfolds `hash_sub_v` on the prefix of length `i + 1`: it holds exactly
/// when it holds on the prefix of length `i` and entry `i` matches in `y`.
proof fn lemma_hash_sub_take_step(x: Seq<(HashKey, (ObjectV, ObjectV))>, y: Seq<(HashKey, (ObjectV, ObjectV))>, i: int)
    requires
        0 <= i < x.len(),
    ensures
        hash_sub_v(x.take(i + 1), y) == ((match hash_find_v(y, x[i].0) {
            Some(pair) => obj_eq_v(x[i].1.0, pair.0) && obj_eq_v(x[i].1.1, pair.1),
            None => false,
        }) && hash_sub_v(x.take(i), y)),
{
    assert(x.take(i + 1).drop_last() =~= x.take(i));
    assert(x.take(i + 1).last() == x[i]);
}

/// If a prefix of `x` already fails to embed in `y`, the whole of `x` fails.
proof fn lemma_hash_sub_prefix(x: Seq<(HashKey, (ObjectV, ObjectV))>, y: Seq<(HashKey, (ObjectV, ObjectV))>, i: int)
    requires
        0 <= i <= x.len(),
        !hash_sub_v(x.take(i), y),
    ensures
        !hash_sub_v(x, y),
    decreases x.len() - i,
{
    if i < x.len() {
        lemma_hash_sub_take_step(x, y, i);
        lemma_hash_sub_prefix(x, y, i + 1);
    } else {
        assert(x.take(i) =~= x);
    }
}

/// The language's `equals` is reflexive on integers, booleans, strings and
/// null.
pub proof fn lemma_equals_reflexive(a: ObjectV)
    requires
        a is Integer || a is Boolean || a is String || a is Null,
    ensures
        obj_eq_v(a, a),
{
}

/// The language's `equals` is symmetric wherever one side is an integer,
/// boolean, string or null.
pub proof fn lemma_equals_symmetric(a: ObjectV, b: ObjectV)
    requires
        a is Integer || a is Boolean || a is String || a is Null,
    ensures
        obj_eq_v(a, b) == obj_eq_v(b, a),
{
}

/// The language's `equals` is transitive wherever the first value is an
/// integer, boolean, string or null.
pub proof fn lemma_equals_transitive(a: ObjectV, b: ObjectV, c: ObjectV)
    requires
        a is Integer || a is Boolean || a is String || a is Null,
        obj_eq_v(a, b),
        obj_eq_v(b, c),
    ensures
        obj_eq_v(a, c),
{
}

/// The derived hash key is a pure function of the value: equal hashable
/// values digest to equal keys.
pub proof fn lemma_hash_key_deterministic(a: ObjectV, b: ObjectV)
    requires
        obj_eq_v(a, b),
        a is Integer || a is Boolean || a is String,
    ensures
        hash_key_of(a) == hash_key_of(b),
{
}

} // verus!
