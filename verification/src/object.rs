//! The runtime object model and the chained scope environment, together
//! with their mathematical mirrors and the evaluation error taxonomy.
use vstd::prelude::*;

use crate::ast::Statement;
use crate::ast::StmtV;
use crate::ast::stmts_clone;
use crate::ast::stmts_eq;
use crate::ast::stmts_view;
use crate::ast::strings_clone;
use crate::ast::strings_eq;
use crate::ast::strings_view;
use crate::builtin::BuiltInFnt;
use crate::token::Token;
use crate::token::TokenV;

verus! {

broadcast use vstd::std_specs::vec::group_vec_axioms, vstd::seq::group_seq_axioms;

/// A runtime value: the tagged union the evaluator computes with.
///
/// `ReturnValue` is the unwinding wrapper produced by a `return`
/// statement; `DeclareVariable` is the sentinel result of a `let`
/// statement; `Function` carries the parameters, the body, and the
/// handle of the scope captured — shared, not copied — at the
/// definition site.
#[derive(Debug, PartialEq)]
pub enum Object {
    Integer { value: i64 },
    Complex { re: i64, im: i64 },
    Boolean { value: bool },
    Null,
    ReturnValue { value: Box<Object> },
    Function { parameter: Vec<String>, body: Vec<Statement>, env: usize },
    Str(String),
    Array(Vec<Object>),
    BuiltIn(BuiltInFnt),
    DeclareVariable,
}

/// One scope frame of the arena: its own bindings plus the handle of
/// the frame its lookups fall through to.
#[derive(Debug, PartialEq)]
pub struct Frame {
    pub store: Vec<(String, Object)>,
    pub parent: Option<usize>,
}

/// The lexical scopes: an arena of frames addressed by handle, with
/// parent links as indices, plus the handle of the current scope.
///
/// Frames are shared, not copied: a closure captures the handle of its
/// defining scope, so bindings made in that scope after the closure was
/// built are visible through it, and a frame stays alive past the call
/// that created it for as long as the interpreter runs. A parent link
/// always points to an older (smaller) handle.
#[derive(Debug, PartialEq)]
pub struct Environment {
    pub frames: Vec<Frame>,
    pub cur: usize,
}

/// The mathematical mirror of [`Object`].
#[verifier::ext_equal]
pub enum ObjV {
    Integer { value: i64 },
    Complex { re: i64, im: i64 },
    Boolean { value: bool },
    Null,
    ReturnValue { value: Box<ObjV> },
    Function { parameter: Seq<Seq<char>>, body: Seq<StmtV>, env: int },
    Str { value: Seq<char> },
    Array { elems: Seq<ObjV> },
    BuiltIn { tag: BuiltInFnt },
    DeclareVariable,
}

/// The mathematical mirror of [`Frame`].
#[verifier::ext_equal]
pub struct FrameV {
    pub store: Seq<(Seq<char>, ObjV)>,
    pub parent: Option<int>,
}

/// The mathematical mirror of [`Environment`].
#[verifier::ext_equal]
pub struct EnvV {
    pub frames: Seq<FrameV>,
    pub cur: int,
}

/// The view of one runtime value.
pub open spec fn obj_view(o: Object) -> ObjV
    decreases o,
{
    match o {
        Object::Integer { value } => ObjV::Integer { value },
        Object::Complex { re, im } => ObjV::Complex { re, im },
        Object::Boolean { value } => ObjV::Boolean { value },
        Object::Null => ObjV::Null,
        Object::ReturnValue { value } => ObjV::ReturnValue { value: Box::new(obj_view(*value)) },
        Object::Function { parameter, body, env } => ObjV::Function {
            parameter: strings_view(parameter@),
            body: stmts_view(body@),
            env: env as int,
        },
        Object::Str(s) => ObjV::Str { value: s@ },
        Object::Array(v) => ObjV::Array { elems: objs_view(v@) },
        Object::BuiltIn(tag) => ObjV::BuiltIn { tag },
        Object::DeclareVariable => ObjV::DeclareVariable,
    }
}

/// The view of a sequence of runtime values, element by element.
pub open spec fn objs_view(v: Seq<Object>) -> Seq<ObjV>
    decreases v,
{
    if v.len() == 0 {
        Seq::empty()
    } else {
        objs_view(v.drop_last()).push(obj_view(v.last()))
    }
}

/// The view of one binding layer, element by element.
pub open spec fn store_view(s: Seq<(String, Object)>) -> Seq<(Seq<char>, ObjV)>
    decreases s,
{
    if s.len() == 0 {
        Seq::empty()
    } else {
        store_view(s.drop_last()).push((s.last().0@, obj_view(s.last().1)))
    }
}

/// The view of one scope frame.
pub open spec fn frame_view(f: Frame) -> FrameV {
    FrameV {
        store: store_view(f.store@),
        parent: match f.parent {
            Some(p) => Some(p as int),
            None => None,
        },
    }
}

/// The view of the frame arena, element by element.
pub open spec fn frames_view(s: Seq<Frame>) -> Seq<FrameV>
    decreases s,
{
    if s.len() == 0 {
        Seq::empty()
    } else {
        frames_view(s.drop_last()).push(frame_view(s.last()))
    }
}

/// The view of the environment.
pub open spec fn env_view(e: Environment) -> EnvV {
    EnvV { frames: frames_view(e.frames@), cur: e.cur as int }
}

impl View for Object {
    type V = ObjV;

    open spec fn view(&self) -> ObjV {
        obj_view(*self)
    }
}

impl View for Environment {
    type V = EnvV;

    open spec fn view(&self) -> EnvV {
        env_view(*self)
    }
}

/// `objs_view` maps the sequence pointwise.
pub proof fn lemma_objs_view_index(v: Seq<Object>, i: int)
    requires
        0 <= i < v.len(),
    ensures
        objs_view(v).len() == v.len(),
        objs_view(v)[i] == obj_view(v[i]),
    decreases v,
{
    lemma_objs_view_len(v);
    if i < v.len() - 1 {
        lemma_objs_view_index(v.drop_last(), i);
    }
}

/// `objs_view` preserves length.
pub proof fn lemma_objs_view_len(v: Seq<Object>)
    ensures
        objs_view(v).len() == v.len(),
    decreases v,
{
    if v.len() > 0 {
        lemma_objs_view_len(v.drop_last());
    }
}

/// `store_view` maps the layer pointwise.
pub proof fn lemma_store_view_index(s: Seq<(String, Object)>, i: int)
    requires
        0 <= i < s.len(),
    ensures
        store_view(s).len() == s.len(),
        store_view(s)[i] == (s[i].0@, obj_view(s[i].1)),
    decreases s,
{
    lemma_store_view_len(s);
    if i < s.len() - 1 {
        lemma_store_view_index(s.drop_last(), i);
    }
}

/// `store_view` preserves length.
pub proof fn lemma_store_view_len(s: Seq<(String, Object)>)
    ensures
        store_view(s).len() == s.len(),
    decreases s,
{
    if s.len() > 0 {
        lemma_store_view_len(s.drop_last());
    }
}

/// `frames_view` maps the arena pointwise.
pub proof fn lemma_frames_view_index(s: Seq<Frame>, i: int)
    requires
        0 <= i < s.len(),
    ensures
        frames_view(s).len() == s.len(),
        frames_view(s)[i] == frame_view(s[i]),
    decreases s,
{
    lemma_frames_view_len(s);
    if i < s.len() - 1 {
        lemma_frames_view_index(s.drop_last(), i);
    }
}

/// `frames_view` preserves length.
pub proof fn lemma_frames_view_len(s: Seq<Frame>)
    ensures
        frames_view(s).len() == s.len(),
    decreases s,
{
    if s.len() > 0 {
        lemma_frames_view_len(s.drop_last());
    }
}

/// The type tag of a runtime value, used by error reports and by the
/// dispatch of the infix rules.
#[derive(Debug, Clone, Copy, PartialEq, Eq, Structural)]
pub enum Kind {
    Integer,
    Complex,
    Boolean,
    Null,
    ReturnValue,
    Function,
    Str,
    Array,
    BuiltIn,
    DeclareVariable,
}

/// The type tag of a mirrored value.
pub open spec fn kind_of(o: ObjV) -> Kind {
    match o {
        ObjV::Integer { .. } => Kind::Integer,
        ObjV::Complex { .. } => Kind::Complex,
        ObjV::Boolean { .. } => Kind::Boolean,
        ObjV::Null => Kind::Null,
        ObjV::ReturnValue { .. } => Kind::ReturnValue,
        ObjV::Function { .. } => Kind::Function,
        ObjV::Str { .. } => Kind::Str,
        ObjV::Array { .. } => Kind::Array,
        ObjV::BuiltIn { .. } => Kind::BuiltIn,
        ObjV::DeclareVariable => Kind::DeclareVariable,
    }
}

/// Numeric view of a value: an `Integer` counts as a complex number with
/// zero imaginary part; any non-numeric value has none.
pub open spec fn to_complex_spec(o: ObjV) -> Option<(i64, i64)> {
    match o {
        ObjV::Integer { value } => Some((value, 0)),
        ObjV::Complex { re, im } => Some((re, im)),
        _ => None,
    }
}

/// The display name of a type tag.
pub open spec fn kind_name_spec(k: Kind) -> Seq<char> {
    match k {
        Kind::Integer => "Integer"@,
        Kind::Complex => "Complex"@,
        Kind::Boolean => "Boolean"@,
        Kind::Null => "Null"@,
        Kind::ReturnValue => "ReturnValue"@,
        Kind::Function => "Function"@,
        Kind::Str => "String"@,
        Kind::Array => "Array"@,
        Kind::BuiltIn => "BuiltIn"@,
        Kind::DeclareVariable => "DeclareVariable"@,
    }
}

impl Object {
    /// The type tag of this value.
    pub fn kind(&self) -> (r: Kind)
        ensures
            r == kind_of(self@),
    {
        match self {
            Object::Integer { .. } => Kind::Integer,
            Object::Complex { .. } => Kind::Complex,
            Object::Boolean { .. } => Kind::Boolean,
            Object::Null => Kind::Null,
            Object::ReturnValue { .. } => Kind::ReturnValue,
            Object::Function { .. } => Kind::Function,
            Object::Str(..) => Kind::Str,
            Object::Array(..) => Kind::Array,
            Object::BuiltIn(..) => Kind::BuiltIn,
            Object::DeclareVariable => Kind::DeclareVariable,
        }
    }

    /// The display name of this value's type, for error reports.
    pub fn kind_name(&self) -> (r: &'static str)
        ensures
            r@ == kind_name_spec(kind_of(self@)),
    {
        match self {
            Object::Integer { .. } => "Integer",
            Object::Complex { .. } => "Complex",
            Object::Boolean { .. } => "Boolean",
            Object::Null => "Null",
            Object::ReturnValue { .. } => "ReturnValue",
            Object::Function { .. } => "Function",
            Object::Str(..) => "String",
            Object::Array(..) => "Array",
            Object::BuiltIn(..) => "BuiltIn",
            Object::DeclareVariable => "DeclareVariable",
        }
    }

    /// Reads this value as a complex number if it is numeric.
    pub fn to_complex(&self) -> (r: Option<(i64, i64)>)
        ensures
            r == to_complex_spec(self@),
    {
        match self {
            Object::Integer { value } => Some((*value, 0)),
            Object::Complex { re, im } => Some((*re, *im)),
            _ => None,
        }
    }

    /// Whether two values carry the same type tag.
    pub fn is_same_type(a: &Object, b: &Object) -> (r: bool)
        ensures
            r == (kind_of(a@) == kind_of(b@)),
    {
        a.kind() == b.kind()
    }
}

/// Looks a name up in one binding layer, newest binding first.
pub open spec fn lookup_store_spec(store: Seq<(Seq<char>, ObjV)>, name: Seq<char>) -> Option<ObjV>
    decreases store.len(),
{
    if store.len() == 0 {
        None
    } else if store.last().0 == name {
        Some(store.last().1)
    } else {
        lookup_store_spec(store.drop_last(), name)
    }
}

/// Looks a name up along a frame chain starting at handle `h`: the
/// frame's own layer first (newest binding wins), then its parent
/// chain. A handle outside the arena, or a parent link that does not
/// point to an older frame, reads as the end of the chain; the
/// constructors never build either.
pub open spec fn lookup_chain_spec(frames: Seq<FrameV>, h: int, name: Seq<char>) -> Option<ObjV>
    decreases h,
{
    if !(0 <= h < frames.len()) {
        None
    } else {
        match lookup_store_spec(frames[h].store, name) {
            Some(v) => Some(v),
            None => match frames[h].parent {
                Some(p) => if 0 <= p < h {
                    lookup_chain_spec(frames, p, name)
                } else {
                    None
                },
                None => None,
            },
        }
    }
}

/// Looks a name up from the current scope outward.
pub open spec fn lookup_spec(env: EnvV, name: Seq<char>) -> Option<ObjV> {
    lookup_chain_spec(env.frames, env.cur, name)
}

/// What `set` does to an environment: binds `name` in the current
/// frame only, shadowing any earlier binding of the same name there,
/// and touching no other frame. A current handle outside the arena —
/// which no constructor produces — leaves the environment unchanged.
pub open spec fn env_set_spec(env: EnvV, name: Seq<char>, v: ObjV) -> EnvV {
    if 0 <= env.cur < env.frames.len() {
        EnvV {
            frames: env.frames.update(
                env.cur,
                FrameV {
                    store: env.frames[env.cur].store.push((name, v)),
                    parent: env.frames[env.cur].parent,
                },
            ),
            cur: env.cur,
        }
    } else {
        env
    }
}

/// A fresh scope whose lookups fall through to the current scope: a
/// new frame whose parent is the current handle, which then becomes
/// the current frame. Every earlier frame is untouched.
pub open spec fn enclosed_spec(env: EnvV) -> EnvV {
    EnvV {
        frames: env.frames.push(FrameV { store: Seq::empty(), parent: Some(env.cur) }),
        cur: env.frames.len() as int,
    }
}

/// Recursive lookup in the first `n` bindings of a layer, newest first;
/// returns the index of the binding that wins.
fn store_get(store: &Vec<(String, Object)>, n: usize, name: &String) -> (r: Option<usize>)
    requires
        n <= store@.len(),
    ensures
        match r {
            Some(i) => i < n && store@[i as int].0@ == name@ && lookup_store_spec(
                store_view(store@.take(n as int)),
                name@,
            ) == Some(obj_view(store@[i as int].1)),
            None => lookup_store_spec(store_view(store@.take(n as int)), name@) is None,
        },
    decreases n,
{
    proof {
        lemma_store_view_len(store@.take(n as int));
    }
    if n == 0 {
        return None;
    }
    proof {
        lemma_store_view_index(store@.take(n as int), n - 1);
        assert(store@.take(n as int).drop_last() =~= store@.take(n as int - 1));
    }
    proof {
        let s = store@.take(n as int);
        assert(s[n as int - 1] == store@[n as int - 1]);
        assert(s.last() == store@[n as int - 1]);
        assert(store_view(s).len() == n);
        assert(store_view(s) == store_view(s.drop_last()).push(
            (s.last().0@, obj_view(s.last().1)),
        ));
        assert(store_view(s).last() == (store@[n as int - 1].0@, obj_view(store@[n as int - 1].1)));
        assert(store_view(s).drop_last() =~= store_view(s.drop_last()));
    }
    if store[n - 1].0 == *name {
        proof {
            let s = store@.take(n as int);
            assert(lookup_store_spec(store_view(s), name@) == Some(
                obj_view(store@[n as int - 1].1),
            ));
        }
        Some(n - 1)
    } else {
        let r = store_get(store, n - 1, name);
        proof {
            let s = store@.take(n as int);
            assert(lookup_store_spec(store_view(s), name@) == lookup_store_spec(
                store_view(store@.take(n as int - 1)),
                name@,
            ));
        }
        r
    }
}

/// Walks the parent chain from handle `h`, cloning the innermost
/// binding of `name`.
fn get_from(frames: &Vec<Frame>, h: usize, name: &String) -> (r: Option<Object>)
    ensures
        match r {
            Some(o) => lookup_chain_spec(frames_view(frames@), h as int, name@) == Some(o@),
            None => lookup_chain_spec(frames_view(frames@), h as int, name@) is None,
        },
    decreases h,
{
    proof {
        lemma_frames_view_len(frames@);
    }
    if h >= frames.len() {
        return None;
    }
    proof {
        lemma_frames_view_index(frames@, h as int);
        assert(frames@[h as int].store@.take(frames@[h as int].store@.len() as int)
            =~= frames@[h as int].store@);
    }
    let n = frames[h].store.len();
    match store_get(&frames[h].store, n, name) {
        Some(i) => Some(obj_clone(&frames[h].store[i].1)),
        None => match frames[h].parent {
            Some(p) => if p < h {
                get_from(frames, p, name)
            } else {
                None
            },
            None => None,
        },
    }
}

impl Environment {
    /// A root environment: one empty frame with no parent, which is the
    /// current scope.
    pub fn new() -> (r: Self)
        ensures
            r@ == (EnvV {
                frames: seq![FrameV { store: Seq::<(Seq<char>, ObjV)>::empty(), parent: None::<int> }],
                cur: 0,
            }),
    {
        let mut frames: Vec<Frame> = Vec::new();
        frames.push(Frame { store: Vec::new(), parent: None });
        let r = Environment { frames, cur: 0 };
        proof {
            assert(r.frames@.drop_last() =~= Seq::<Frame>::empty());
            assert(frames_view(Seq::<Frame>::empty()) =~= Seq::<FrameV>::empty());
            assert(r.frames@.last().store@ =~= Seq::<(String, Object)>::empty());
            assert(store_view(Seq::<(String, Object)>::empty()) =~= Seq::<(Seq<char>, ObjV)>::empty());
            assert(frames_view(r.frames@) =~= seq![frame_view(r.frames@.last())]);
            assert(r@ =~= (EnvV {
                frames: seq![
                    FrameV { store: Seq::<(Seq<char>, ObjV)>::empty(), parent: None::<int> },
                ],
                cur: 0,
            }));
        }
        r
    }

    /// A child scope enclosed by `outer`'s current scope: a fresh frame
    /// is pushed onto the arena with the current handle as its parent,
    /// and becomes the current frame. Lookups that miss it fall through
    /// to the enclosing chain; no existing frame is changed.
    pub fn new_enclosed(outer: Environment) -> (r: Self)
        ensures
            r@ == enclosed_spec(outer@),
    {
        let ghost ov = outer@;
        let mut r = outer;
        let h = r.frames.len();
        let ghost oldframes = r.frames@;
        r.frames.push(Frame { store: Vec::new(), parent: Some(r.cur) });
        r.cur = h;
        proof {
            lemma_frames_view_len(oldframes);
            assert(r.frames@.drop_last() =~= oldframes);
            assert(r.frames@.last().store@ =~= Seq::<(String, Object)>::empty());
            assert(store_view(Seq::<(String, Object)>::empty()) =~= Seq::<(Seq<char>, ObjV)>::empty());
            assert(frame_view(r.frames@.last()) =~= (FrameV {
                store: Seq::<(Seq<char>, ObjV)>::empty(),
                parent: Some(ov.cur),
            }));
            assert(r@ =~= enclosed_spec(ov));
        }
        r
    }

    /// Binds `name` to `value` in the current frame only, shadowing but
    /// never touching a binding of any other frame. Returns the
    /// `DeclareVariable` sentinel, the statement-level result of `let`.
    pub fn set(&mut self, name: String, value: Object) -> (r: Object)
        ensures
            final(self)@ == env_set_spec(old(self)@, name@, obj_view(value)),
            r@ == ObjV::DeclareVariable,
    {
        let ghost nv = name@;
        let ghost vv = obj_view(value);
        let ghost oldframes = self.frames@;
        proof {
            lemma_frames_view_len(oldframes);
        }
        if self.cur < self.frames.len() {
            let c = self.cur;
            let fr = &mut self.frames[c];
            let ghost oldstore = fr.store@;
            fr.store.push((name, value));
            proof {
                lemma_frames_view_len(oldframes);
                lemma_frames_view_len(self.frames@);
                assert(fr.store@.drop_last() =~= oldstore);
                assert(store_view(fr.store@) == store_view(oldstore).push((nv, vv)));
                let want = env_set_spec(old(self)@, nv, vv);
                assert forall|i: int| 0 <= i < self.frames@.len() implies frames_view(
                    self.frames@,
                )[i] == want.frames[i] by {
                    lemma_frames_view_index(self.frames@, i);
                    lemma_frames_view_index(oldframes, i);
                }
                assert(frames_view(self.frames@) =~= want.frames);
                assert(self@ =~= want);
            }
        }
        Object::DeclareVariable
    }

    /// Looks `name` up: the current frame first (newest binding wins),
    /// then outward along the parent chain. Lookups never mutate.
    pub fn get(&self, name: &String) -> (r: Option<Object>)
        ensures
            match r {
                Some(o) => lookup_spec(self@, name@) == Some(o@),
                None => lookup_spec(self@, name@) is None,
            },
    {
        get_from(&self.frames, self.cur, name)
    }
}

/// Copies a runtime value, preserving its mathematical value.
pub fn obj_clone(o: &Object) -> (r: Object)
    ensures
        r@ == o@,
    decreases *o,
{
    match o {
        Object::Integer { value } => Object::Integer { value: *value },
        Object::Complex { re, im } => Object::Complex { re: *re, im: *im },
        Object::Boolean { value } => Object::Boolean { value: *value },
        Object::Null => Object::Null,
        Object::ReturnValue { value } => Object::ReturnValue {
            value: Box::new(obj_clone(value)),
        },
        Object::Function { parameter, body, env } => Object::Function {
            parameter: strings_clone(parameter),
            body: stmts_clone(body),
            env: *env,
        },
        Object::Str(s) => Object::Str(s.clone()),
        Object::Array(v) => Object::Array(objs_clone(v)),
        Object::BuiltIn(tag) => Object::BuiltIn(*tag),
        Object::DeclareVariable => Object::DeclareVariable,
    }
}

/// Copies a sequence of runtime values, preserving its mathematical
/// value.
pub fn objs_clone(v: &Vec<Object>) -> (r: Vec<Object>)
    ensures
        objs_view(r@) == objs_view(v@),
    decreases v@,
{
    let mut out: Vec<Object> = Vec::new();
    let mut i: usize = 0;
    #[verifier::loop_isolation(false)]
    while i < v.len()
        invariant
            i <= v.len(),
            out@.len() == i as int,
            forall|j: int| 0 <= j < i ==> out@[j]@ == v@[j]@,
        decreases v.len() - i,
    {
        proof {
            assert(decreases_to!(v@ => v@[i as int]));
        }
        let c = obj_clone(&v[i]);
        out.push(c);
        i = i + 1;
    }
    proof {
        lemma_objs_view_len(out@);
        lemma_objs_view_len(v@);
        assert forall|j: int| 0 <= j < v@.len() implies objs_view(out@)[j] == objs_view(v@)[j] by {
            lemma_objs_view_index(out@, j);
            lemma_objs_view_index(v@, j);
        }
        assert(objs_view(out@) =~= objs_view(v@));
    }
    out
}

/// Structural equality of runtime values, the meaning of the language's
/// `==` on operands of the same kind. Functions compare parameters,
/// body, and the handle of the captured scope: two functions are equal
/// when they share one defining scope, matching capture by reference.
pub fn obj_eq(a: &Object, b: &Object) -> (r: bool)
    ensures
        r == (a@ == b@),
    decreases *a,
{
    match (a, b) {
        (Object::Integer { value: x }, Object::Integer { value: y }) => x == y,
        (
            Object::Complex { re: xr, im: xi },
            Object::Complex { re: yr, im: yi },
        ) => xr == yr && xi == yi,
        (Object::Boolean { value: x }, Object::Boolean { value: y }) => x == y,
        (Object::Null, Object::Null) => true,
        (Object::ReturnValue { value: x }, Object::ReturnValue { value: y }) => obj_eq(x, y),
        (
            Object::Function { parameter: pa, body: ba, env: ea },
            Object::Function { parameter: pb, body: bb, env: eb },
        ) => strings_eq(pa, pb) && stmts_eq(ba, bb) && ea == eb,
        (Object::Str(x), Object::Str(y)) => *x == *y,
        (Object::Array(x), Object::Array(y)) => objs_eq(x, y),
        (Object::BuiltIn(x), Object::BuiltIn(y)) => x == y,
        (Object::DeclareVariable, Object::DeclareVariable) => true,
        _ => false,
    }
}

/// Structural equality of value sequences.
pub fn objs_eq(a: &Vec<Object>, b: &Vec<Object>) -> (r: bool)
    ensures
        r == (objs_view(a@) == objs_view(b@)),
    decreases a@,
{
    proof {
        lemma_objs_view_len(a@);
        lemma_objs_view_len(b@);
    }
    if a.len() != b.len() {
        return false;
    }
    let mut i: usize = 0;
    #[verifier::loop_isolation(false)]
    while i < a.len()
        invariant
            i <= a.len(),
            forall|j: int| 0 <= j < i ==> obj_view(a@[j]) == obj_view(b@[j]),
        decreases a.len() - i,
    {
        proof {
            assert(decreases_to!(a@ => a@[i as int]));
        }
        if !obj_eq(&a[i], &b[i]) {
            proof {
                lemma_objs_view_index(a@, i as int);
                lemma_objs_view_index(b@, i as int);
            }
            return false;
        }
        i = i + 1;
    }
    proof {
        assert forall|j: int| 0 <= j < a@.len() implies objs_view(a@)[j] == objs_view(b@)[j] by {
            lemma_objs_view_index(a@, j);
            lemma_objs_view_index(b@, j);
        }
        assert(objs_view(a@) =~= objs_view(b@));
    }
    true
}

/// Why an evaluation failed. Every error aborts the remainder of the
/// current statement, block and program; none is recovered from.
///
/// `DivideByZero`, `Overflow`, `ArityMismatch` and `DepthLimit` replace
/// conditions that would otherwise be runtime panics or unchecked
/// behaviour: arithmetic is checked, argument counts are validated
/// against parameter counts, and recursion is cut off at a depth no
/// realistic program reaches.
#[derive(Debug, PartialEq)]
pub enum EvalError {
    /// An identifier was not bound in any enclosing scope.
    IdentNotFound { name: String },
    /// A prefix operator was applied to a value of an unsupported kind.
    UnknownPrefix { operator: Token, right: Kind },
    /// An infix operator is not defined for operands of these kinds.
    UnknownInfix { left: Kind, operator: Token, right: Kind },
    /// Two operands of different non-numeric kinds met an infix operator.
    TypeMismatch { left: Kind, operator: Token, right: Kind },
    /// The callee of a call expression was not a function or a builtin.
    NotFunction { got: Object },
    /// The power operator met a negative exponent.
    PowErr,
    /// Integer division by zero.
    DivideByZero,
    /// An arithmetic result does not fit the integer type.
    Overflow,
    /// A call handed a function the wrong number of arguments.
    ArityMismatch { expected: usize, got: usize },
    /// A builtin was handed the wrong number of arguments.
    WrongArgCount { builtin: BuiltInFnt, expected: usize, got: usize },
    /// A builtin was handed an argument of an unsupported kind.
    WrongArgKind { builtin: BuiltInFnt, got: Kind },
    /// The evaluation depth budget was exhausted.
    DepthLimit,
}

/// The mathematical mirror of [`EvalError`].
#[verifier::ext_equal]
pub enum ErrV {
    IdentNotFound { name: Seq<char> },
    UnknownPrefix { operator: TokenV, right: Kind },
    UnknownInfix { left: Kind, operator: TokenV, right: Kind },
    TypeMismatch { left: Kind, operator: TokenV, right: Kind },
    NotFunction { got: ObjV },
    PowErr,
    DivideByZero,
    Overflow,
    ArityMismatch { expected: int, got: int },
    WrongArgCount { builtin: BuiltInFnt, expected: int, got: int },
    WrongArgKind { builtin: BuiltInFnt, got: Kind },
    DepthLimit,
}

impl View for EvalError {
    type V = ErrV;

    open spec fn view(&self) -> ErrV {
        match self {
            EvalError::IdentNotFound { name } => ErrV::IdentNotFound { name: name@ },
            EvalError::UnknownPrefix { operator, right } => ErrV::UnknownPrefix {
                operator: operator@,
                right: *right,
            },
            EvalError::UnknownInfix { left, operator, right } => ErrV::UnknownInfix {
                left: *left,
                operator: operator@,
                right: *right,
            },
            EvalError::TypeMismatch { left, operator, right } => ErrV::TypeMismatch {
                left: *left,
                operator: operator@,
                right: *right,
            },
            EvalError::NotFunction { got } => ErrV::NotFunction { got: got@ },
            EvalError::PowErr => ErrV::PowErr,
            EvalError::DivideByZero => ErrV::DivideByZero,
            EvalError::Overflow => ErrV::Overflow,
            EvalError::ArityMismatch { expected, got } => ErrV::ArityMismatch {
                expected: *expected as int,
                got: *got as int,
            },
            EvalError::WrongArgCount { builtin, expected, got } => ErrV::WrongArgCount {
                builtin: *builtin,
                expected: *expected as int,
                got: *got as int,
            },
            EvalError::WrongArgKind { builtin, got } => ErrV::WrongArgKind {
                builtin: *builtin,
                got: *got,
            },
            EvalError::DepthLimit => ErrV::DepthLimit,
        }
    }
}

/// The view of an evaluation result.
pub open spec fn res_view(r: Result<Object, EvalError>) -> Result<ObjV, ErrV> {
    match r {
        Ok(o) => Ok(obj_view(o)),
        Err(e) => Err(e@),
    }
}

/// Two arenas that agree on every frame up to `h` give every lookup
/// from `h` the same answer: a chain never reads past its own prefix.
pub proof fn lemma_chain_prefix_agrees(f1: Seq<FrameV>, f2: Seq<FrameV>, h: int, name: Seq<char>)
    requires
        0 <= h < f1.len(),
        h < f2.len(),
        forall|i: int| 0 <= i <= h ==> f1[i] == f2[i],
    ensures
        lookup_chain_spec(f1, h, name) == lookup_chain_spec(f2, h, name),
    decreases h,
{
    match f1[h].parent {
        Some(p) => {
            if 0 <= p < h {
                lemma_chain_prefix_agrees(f1, f2, p, name);
            }
        },
        None => {},
    }
}

/// A binding is found under the name it was set with: looking up `name`
/// right after `set(name, v)` yields `v` — also through the very handle
/// a closure captured before the binding was made, since frames are
/// shared, not copied.
pub proof fn lemma_env_get_set_same(env: EnvV, name: Seq<char>, v: ObjV)
    requires
        0 <= env.cur < env.frames.len(),
    ensures
        lookup_spec(env_set_spec(env, name, v), name) == Some(v),
        lookup_chain_spec(env_set_spec(env, name, v).frames, env.cur, name) == Some(v),
{
    let e2 = env_set_spec(env, name, v);
    assert(e2.frames[env.cur].store.last() == (name, v));
}

/// Setting one name leaves every other lookup unchanged.
pub proof fn lemma_env_get_set_other(env: EnvV, name: Seq<char>, v: ObjV, other: Seq<char>)
    requires
        other != name,
        0 <= env.cur < env.frames.len(),
    ensures
        lookup_spec(env_set_spec(env, name, v), other) == lookup_spec(env, other),
{
    let e2 = env_set_spec(env, name, v);
    assert(e2.frames[env.cur].store.drop_last() =~= env.frames[env.cur].store);
    match env.frames[env.cur].parent {
        Some(p) => {
            if 0 <= p < env.cur {
                lemma_chain_prefix_agrees(env.frames, e2.frames, p, other);
            }
        },
        None => {},
    }
}

/// A fresh enclosed scope holds no bindings of its own: every lookup
/// falls through to the enclosing chain, and no existing frame changes.
pub proof fn lemma_env_enclosed_lookup(env: EnvV, name: Seq<char>)
    requires
        0 <= env.cur < env.frames.len(),
    ensures
        lookup_spec(enclosed_spec(env), name) == lookup_spec(env, name),
        forall|i: int| 0 <= i < env.frames.len() ==> enclosed_spec(env).frames[i] == env.frames[i],
{
    let e2 = enclosed_spec(env);
    lemma_chain_prefix_agrees(env.frames, e2.frames, env.cur, name);
}

/// Shadowing: binding `name` in a scope enclosed by the current one
/// makes `name` resolve to the new value there, resolves every other
/// name as the enclosing chain does, and leaves every enclosing frame —
/// in particular the current one — untouched.
pub proof fn lemma_env_shadowing(env: EnvV, name: Seq<char>, v: ObjV, other: Seq<char>)
    requires
        0 <= env.cur < env.frames.len(),
    ensures
        lookup_spec(env_set_spec(enclosed_spec(env), name, v), name) == Some(v),
        other != name ==> lookup_spec(env_set_spec(enclosed_spec(env), name, v), other)
            == lookup_spec(env, other),
        forall|i: int| 0 <= i < env.frames.len() ==> env_set_spec(
            enclosed_spec(env),
            name,
            v,
        ).frames[i] == env.frames[i],
{
    let e1 = enclosed_spec(env);
    lemma_env_get_set_same(e1, name, v);
    if other != name {
        lemma_env_get_set_other(e1, name, v, other);
        lemma_env_enclosed_lookup(env, other);
    }
    let e2 = env_set_spec(e1, name, v);
    assert forall|i: int| 0 <= i < env.frames.len() implies e2.frames[i] == env.frames[i] by {
        assert(e1.frames[i] == env.frames[i]);
    }
}

/// Capture is by shared reference: a binding made in a scope after a
/// closure captured that scope's handle is visible through the handle.
pub proof fn lemma_env_capture_shares(env: EnvV, name: Seq<char>, v: ObjV)
    requires
        0 <= env.cur < env.frames.len(),
    ensures
        lookup_chain_spec(env_set_spec(env, name, v).frames, env.cur, name) == Some(v),
{
    lemma_env_get_set_same(env, name, v);
}

} // verus!
