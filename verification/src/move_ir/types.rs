use vstd::prelude::*;
use vstd::string::StringExecFns;
use crate::move_ir::u256::U256;

verus! {

/// The nine primitive types of the virtual machine.
#[derive(Clone, Copy, Debug, PartialEq, Eq, Structural)]
pub enum PrimitiveType {
    Bool,
    U8,
    U16,
    U32,
    U64,
    U128,
    U256,
    Address,
    Signer,
}

/// Handle of an interned identifier: its position in the owning pool.
#[derive(Clone, Copy, Debug, PartialEq, Eq, Structural, Hash)]
pub struct Symbol(pub usize);

/// Dense index into a module's table of referenced module names.
#[derive(Clone, Copy, Debug, PartialEq, Eq, Structural, Hash)]
pub struct ModuleId(pub usize);

impl ModuleId {
    pub fn new(idx: usize) -> (r: Self)
        ensures
            r == ModuleId(idx),
    {
        ModuleId(idx)
    }

    pub fn to_usize(self) -> (r: usize)
        ensures
            r == self.0,
    {
        self.0
    }
}

#[derive(Clone, Copy, Debug, PartialEq, Eq, Structural, Hash)]
pub struct StructId(pub Symbol);

impl StructId {
    pub fn new(sym: Symbol) -> (r: Self)
        ensures
            r == StructId(sym),
    {
        StructId(sym)
    }

    pub fn symbol(self) -> (r: Symbol)
        ensures
            r == self.0,
    {
        self.0
    }
}

#[derive(Clone, Copy, Debug, PartialEq, Eq, Structural, Hash)]
pub struct FunId(pub Symbol);

impl FunId {
    pub fn new(sym: Symbol) -> (r: Self)
        ensures
            r == FunId(sym),
    {
        FunId(sym)
    }

    pub fn symbol(self) -> (r: Symbol)
        ensures
            r == self.0,
    {
        self.0
    }
}

/// An identifier together with the module it belongs to.
#[derive(Clone, Copy, Debug, PartialEq, Eq, Structural, Hash)]
pub struct QualifiedId<T> {
    pub module_id: ModuleId,
    pub id: T,
}

/// A source position. Compiled modules carry none, so every instruction of
/// a lifted function has the default one.
#[derive(Clone, Copy, Debug, PartialEq, Eq, Structural)]
pub struct Loc {
    pub start: u32,
    pub end: u32,
}

impl Loc {
    pub fn default_loc() -> (r: Self)
        ensures
            r == (Loc { start: 0, end: 0 }),
    {
        Loc { start: 0, end: 0 }
    }
}

/// The name of a module: the address it is published under and its
/// interned identifier.
#[derive(Clone, Copy, Debug, PartialEq, Eq, Structural)]
pub struct ModuleName {
    pub address: U256,
    pub name: Symbol,
}

impl ModuleName {
    pub fn new(address: U256, name: Symbol) -> (r: Self)
        ensures
            r == (ModuleName { address, name }),
    {
        ModuleName { address, name }
    }

    pub fn addr(&self) -> (r: U256)
        ensures
            r == self.address,
    {
        self.address
    }

    pub fn name(&self) -> (r: Symbol)
        ensures
            r == self.name,
    {
        self.name
    }
}

/// An interning table: each distinct text is held once, and its handle is
/// its position.
pub struct SymbolPool {
    pub strings: Vec<String>,
}

pub open spec fn strings_view(v: Seq<String>) -> Seq<Seq<char>> {
    Seq::new(v.len(), |i: int| v[i]@)
}

impl View for SymbolPool {
    type V = Seq<Seq<char>>;

    open spec fn view(&self) -> Seq<Seq<char>> {
        strings_view(self.strings@)
    }
}

/// The text behind the handle `s` in the pool; a marker where the pool
/// holds no such handle.
pub open spec fn text_in(pool: Seq<Seq<char>>, s: Symbol) -> Seq<char> {
    if s.0 < pool.len() {
        pool[s.0 as int]
    } else {
        "??unknown??"@
    }
}

impl SymbolPool {
    /// The text behind the handle `s`; a marker where the pool holds no
    /// such handle.
    pub fn text(&self, s: Symbol) -> (r: String)
        ensures
            r@ == text_in(self@, s),
    {
        if s.0 < self.strings.len() {
            self.strings[s.0].clone()
        } else {
            String::from_str("??unknown??")
        }
    }

    /// No text is held twice.
    pub open spec fn wf(&self) -> bool {
        self@.no_duplicates()
    }

    pub fn new() -> (r: Self)
        ensures
            r@ == Seq::<Seq<char>>::empty(),
            r.wf(),
    {
        let r = SymbolPool { strings: Vec::new() };
        assert(r@ =~= Seq::<Seq<char>>::empty());
        r
    }

    pub fn len(&self) -> (r: usize)
        ensures
            r == self@.len(),
    {
        self.strings.len()
    }

    /// The handle of `s` if the pool holds it.
    pub fn find(&self, s: &String) -> (r: Option<Symbol>)
        ensures
            match r {
                Some(sym) => sym.0 < self@.len() && self@[sym.0 as int] == s@
                    && forall|j: int| 0 <= j < sym.0 ==> self@[j] != s@,
                None => !self@.contains(s@),
            },
    {
        let mut i: usize = 0;
        while i < self.strings.len()
            invariant
                i <= self.strings.len(),
                forall|j: int| 0 <= j < i ==> self@[j] != s@,
            decreases self.strings.len() - i,
        {
            if self.strings[i] == *s {
                return Some(Symbol(i));
            }
            i += 1;
        }
        None
    }

    /// Interns `s`: the handle it already has, or a fresh one at the end.
    pub fn make(&mut self, s: &str) -> (sym: Symbol)
        requires
            old(self).wf(),
        ensures
            final(self).wf(),
            sym.0 < final(self)@.len(),
            final(self)@[sym.0 as int] == s@,
            old(self)@.contains(s@) ==> final(self)@ == old(self)@,
            !old(self)@.contains(s@) ==> final(self)@ == old(self)@.push(s@),
    {
        let owned = String::from_str(s);
        match self.find(&owned) {
            Some(sym) => sym,
            None => {
                let n = self.strings.len();
                self.strings.push(owned);
                assert(self@ =~= old(self)@.push(s@));
                Symbol(n)
            },
        }
    }

    /// The text behind a handle.
    pub fn string(&self, sym: Symbol) -> (r: &String)
        requires
            sym.0 < self@.len(),
        ensures
            r@ == self@[sym.0 as int],
    {
        &self.strings[sym.0]
    }
}

#[derive(Debug, PartialEq, Eq)]
pub enum Type {
    Primitive(PrimitiveType),
    Tuple(Vec<Type>),
    Vector(Box<Type>),
    Struct(ModuleId, StructId, Vec<Type>),
    Reference(bool, Box<Type>),
    TypeParameter(u16),
}

pub ghost enum TypeV {
    Primitive(PrimitiveType),
    Tuple(Seq<TypeV>),
    Vector(Box<TypeV>),
    Struct(ModuleId, StructId, Seq<TypeV>),
    Reference(bool, Box<TypeV>),
    TypeParameter(u16),
}

pub open spec fn type_view(t: Type) -> TypeV
    decreases t,
{
    match t {
        Type::Primitive(p) => TypeV::Primitive(p),
        Type::Tuple(ts) => TypeV::Tuple(
            Seq::new(ts@.len(), |i: int| if 0 <= i < ts@.len() { type_view(ts@[i]) } else { arbitrary() }),
        ),
        Type::Vector(e) => TypeV::Vector(Box::new(type_view(*e))),
        Type::Struct(m, s, ts) => TypeV::Struct(
            m,
            s,
            Seq::new(ts@.len(), |i: int| if 0 <= i < ts@.len() { type_view(ts@[i]) } else { arbitrary() }),
        ),
        Type::Reference(b, e) => TypeV::Reference(b, Box::new(type_view(*e))),
        Type::TypeParameter(i) => TypeV::TypeParameter(i),
    }
}

impl View for Type {
    type V = TypeV;

    open spec fn view(&self) -> TypeV {
        type_view(*self)
    }
}

pub open spec fn types_view(ts: Seq<Type>) -> Seq<TypeV> {
    Seq::new(ts.len(), |i: int| ts[i]@)
}

/// The view of a type, one level unfolded, with the views of its arguments
/// collected by `types_view`.
pub open spec fn type_view_unfolded(t: Type) -> TypeV {
    match t {
        Type::Primitive(p) => TypeV::Primitive(p),
        Type::Tuple(ts) => TypeV::Tuple(types_view(ts@)),
        Type::Vector(e) => TypeV::Vector(Box::new(e@)),
        Type::Struct(m, s, ts) => TypeV::Struct(m, s, types_view(ts@)),
        Type::Reference(b, e) => TypeV::Reference(b, Box::new(e@)),
        Type::TypeParameter(i) => TypeV::TypeParameter(i),
    }
}

pub broadcast proof fn lemma_type_view(t: Type)
    ensures
        #[trigger] type_view(t) == type_view_unfolded(t),
{
    match t {
        Type::Tuple(ts) => {
            assert(type_view(t)->Tuple_0 =~= types_view(ts@));
        },
        Type::Struct(m, s, ts) => {
            assert(type_view(t)->Struct_2 =~= types_view(ts@));
        },
        _ => {},
    }
}

pub fn clone_type(t: &Type) -> (r: Type)
    ensures
        r@ == t@,
    decreases t,
{
    broadcast use lemma_type_view;

    match t {
        Type::Primitive(p) => Type::Primitive(*p),
        Type::Tuple(ts) => Type::Tuple(clone_types(ts)),
        Type::Vector(e) => Type::Vector(Box::new(clone_type(e))),
        Type::Struct(m, s, ts) => Type::Struct(*m, *s, clone_types(ts)),
        Type::Reference(b, e) => Type::Reference(*b, Box::new(clone_type(e))),
        Type::TypeParameter(i) => Type::TypeParameter(*i),
    }
}

pub fn clone_types(ts: &Vec<Type>) -> (r: Vec<Type>)
    ensures
        types_view(r@) == types_view(ts@),
    decreases ts,
{
    let mut out: Vec<Type> = Vec::new();
    let mut i: usize = 0;
    while i < ts.len()
        invariant
            i <= ts.len(),
            out.len() == i,
            forall|j: int| 0 <= j < i ==> out@[j]@ == ts@[j]@,
        decreases ts.len() - i,
    {
        out.push(clone_type(&ts[i]));
        i += 1;
    }
    assert(types_view(out@) =~= types_view(ts@));
    out
}

pub fn type_eq(a: &Type, b: &Type) -> (r: bool)
    ensures
        r == (a@ == b@),
    decreases a,
{
    broadcast use lemma_type_view;

    match (a, b) {
        (Type::Primitive(p), Type::Primitive(q)) => *p == *q,
        (Type::Tuple(xs), Type::Tuple(ys)) => types_eq(xs, ys),
        (Type::Vector(x), Type::Vector(y)) => type_eq(x, y),
        (Type::Struct(m, s, xs), Type::Struct(n, t, ys)) => *m == *n && *s == *t && types_eq(xs, ys),
        (Type::Reference(p, x), Type::Reference(q, y)) => *p == *q && type_eq(x, y),
        (Type::TypeParameter(i), Type::TypeParameter(j)) => *i == *j,
        _ => false,
    }
}

pub fn types_eq(xs: &Vec<Type>, ys: &Vec<Type>) -> (r: bool)
    ensures
        r == (types_view(xs@) == types_view(ys@)),
    decreases xs,
{
    if xs.len() != ys.len() {
        assert(types_view(xs@).len() != types_view(ys@).len());
        return false;
    }
    let mut i: usize = 0;
    while i < xs.len()
        invariant
            i <= xs.len(),
            xs.len() == ys.len(),
            forall|j: int| 0 <= j < i ==> xs@[j]@ == ys@[j]@,
        decreases xs.len() - i,
    {
        if !type_eq(&xs[i], &ys[i]) {
            assert(types_view(xs@)[i as int] != types_view(ys@)[i as int]);
            return false;
        }
        i += 1;
    }
    assert(types_view(xs@) =~= types_view(ys@));
    true
}

impl Type {
    pub open spec fn spec_is_mutable_reference(t: TypeV) -> bool {
        t matches TypeV::Reference(true, _)
    }

    pub fn is_mutable_reference(&self) -> (r: bool)
        ensures
            r == Self::spec_is_mutable_reference(self@),
    {
        broadcast use lemma_type_view;

        match self {
            Type::Reference(is_mut, _) => *is_mut,
            _ => false,
        }
    }

    /// Substitutes `actuals[i]` for every type parameter `i`; with no
    /// actuals the type is left as it is.
    pub fn instantiate(&self, actuals: &Vec<Type>) -> (r: Type)
        requires
            instantiable(self@, actuals@.len()),
        ensures
            r@ == instantiate_view(self@, types_view(actuals@)),
    {
        match self.try_instantiate(actuals) {
            Some(t) => t,
            None => {
                proof {
                    assert(false);
                }
                clone_type(self)
            },
        }
    }

    /// As `instantiate`, for any type: `None` where a parameter has no
    /// actual to stand for it.
    pub fn try_instantiate(&self, actuals: &Vec<Type>) -> (r: Option<Type>)
        ensures
            r is Some <==> instantiable(self@, actuals@.len()),
            r matches Some(t) ==> t@ == instantiate_view(self@, types_view(actuals@)),
    {
        if actuals.len() == 0 {
            Some(clone_type(self))
        } else {
            substitute(self, actuals)
        }
    }
}

/// Every type parameter of `t` is below `n`.
pub open spec fn params_below(t: TypeV, n: nat) -> bool
    decreases t,
{
    match t {
        TypeV::Primitive(_) => true,
        TypeV::Tuple(ts) => forall|i: int| 0 <= i < ts.len() ==> params_below(#[trigger] ts[i], n),
        TypeV::Vector(e) => params_below(*e, n),
        TypeV::Struct(_, _, ts) => forall|i: int|
            0 <= i < ts.len() ==> params_below(#[trigger] ts[i], n),
        TypeV::Reference(_, e) => params_below(*e, n),
        TypeV::TypeParameter(i) => (i as nat) < n,
    }
}

pub open spec fn instantiable(t: TypeV, n: nat) -> bool {
    n == 0 || params_below(t, n)
}

pub open spec fn substitute_view(t: TypeV, actuals: Seq<TypeV>) -> TypeV
    decreases t,
{
    match t {
        TypeV::Primitive(_) => t,
        TypeV::Tuple(ts) => TypeV::Tuple(
            Seq::new(
                ts.len(),
                |i: int| if 0 <= i < ts.len() { substitute_view(ts[i], actuals) } else { arbitrary() },
            ),
        ),
        TypeV::Vector(e) => TypeV::Vector(Box::new(substitute_view(*e, actuals))),
        TypeV::Struct(m, s, ts) => TypeV::Struct(
            m,
            s,
            Seq::new(
                ts.len(),
                |i: int| if 0 <= i < ts.len() { substitute_view(ts[i], actuals) } else { arbitrary() },
            ),
        ),
        TypeV::Reference(b, e) => TypeV::Reference(b, Box::new(substitute_view(*e, actuals))),
        TypeV::TypeParameter(i) => if (i as int) < actuals.len() {
            actuals[i as int]
        } else {
            t
        },
    }
}

/// What `Type::instantiate` yields, over views.
pub open spec fn instantiate_view(t: TypeV, actuals: Seq<TypeV>) -> TypeV {
    if actuals.len() == 0 {
        t
    } else {
        substitute_view(t, actuals)
    }
}

pub open spec fn all_params_below(ts: Seq<TypeV>, n: nat) -> bool {
    forall|i: int| 0 <= i < ts.len() ==> params_below(#[trigger] ts[i], n)
}

pub open spec fn substitute_all(ts: Seq<TypeV>, actuals: Seq<TypeV>) -> Seq<TypeV> {
    Seq::new(ts.len(), |i: int| substitute_view(ts[i], actuals))
}

fn substitute(t: &Type, actuals: &Vec<Type>) -> (r: Option<Type>)
    ensures
        r is Some <==> params_below(t@, actuals@.len()),
        r matches Some(x) ==> x@ == substitute_view(t@, types_view(actuals@)),
    decreases t,
{
    broadcast use lemma_type_view;

    match t {
        Type::Primitive(p) => Some(Type::Primitive(*p)),
        Type::Tuple(ts) => {
            match substitute_vec(ts, actuals) {
                Some(v) => {
                    let r = Type::Tuple(v);
                    assert(r@->Tuple_0 =~= substitute_view(t@, types_view(actuals@))->Tuple_0);
                    Some(r)
                },
                None => None,
            }
        },
        Type::Vector(e) => {
            match substitute(e, actuals) {
                Some(x) => Some(Type::Vector(Box::new(x))),
                None => None,
            }
        },
        Type::Struct(m, s, ts) => {
            match substitute_vec(ts, actuals) {
                Some(v) => {
                    let r = Type::Struct(*m, *s, v);
                    assert(r@->Struct_2 =~= substitute_view(t@, types_view(actuals@))->Struct_2);
                    Some(r)
                },
                None => None,
            }
        },
        Type::Reference(b, e) => {
            match substitute(e, actuals) {
                Some(x) => Some(Type::Reference(*b, Box::new(x))),
                None => None,
            }
        },
        Type::TypeParameter(i) => {
            let k = *i as usize;
            if k < actuals.len() {
                Some(clone_type(&actuals[k]))
            } else {
                None
            }
        },
    }
}

fn substitute_vec(ts: &Vec<Type>, actuals: &Vec<Type>) -> (r: Option<Vec<Type>>)
    ensures
        r is Some <==> all_params_below(types_view(ts@), actuals@.len()),
        r matches Some(v) ==> types_view(v@) == substitute_all(
            types_view(ts@),
            types_view(actuals@),
        ),
    decreases ts,
{
    let mut out: Vec<Type> = Vec::new();
    let mut i: usize = 0;
    while i < ts.len()
        invariant
            i <= ts.len(),
            out.len() == i,
            forall|j: int| 0 <= j < i ==> params_below(#[trigger] types_view(ts@)[j], actuals@.len()),
            forall|j: int|
                0 <= j < i ==> out@[j]@ == substitute_view(ts@[j]@, types_view(actuals@)),
        decreases ts.len() - i,
    {
        match substitute(&ts[i], actuals) {
            Some(x) => {
                out.push(x);
            },
            None => {
                assert(!params_below(types_view(ts@)[i as int], actuals@.len()));
                return None;
            },
        }
        i += 1;
    }
    assert(types_view(out@) =~= substitute_all(types_view(ts@), types_view(actuals@)));
    Some(out)
}

} // verus!
