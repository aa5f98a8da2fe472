use crate::ice::transform::Transform;
use crate::saved::{integer_value, spec_to_i32, to_i32, value_as_integer, value_model, Saved};
use vstd::prelude::*;

verus! {

/// The letter that a symbol shows, whichever way it is turned.
#[derive(Clone, Copy, Debug, PartialEq, Eq, Structural, Hash)]
pub enum SymbolKind {
    CyanQ,
    CyanU,
    CyanA,
}

/// A letter together with the way it is turned and mirrored. Two symbols
/// are equal only if both the letter and the transform agree.
#[derive(Clone, Copy, Debug, PartialEq, Eq, Structural, Hash)]
pub enum Symbol {
    CyanQ(Transform),
    CyanU(Transform),
    CyanA(Transform),
}

impl Symbol {
    /// The letter of the symbol.
    pub open spec fn spec_kind(self) -> SymbolKind {
        match self {
            Symbol::CyanQ(_) => SymbolKind::CyanQ,
            Symbol::CyanU(_) => SymbolKind::CyanU,
            Symbol::CyanA(_) => SymbolKind::CyanA,
        }
    }

    /// The way the symbol is turned and mirrored.
    pub open spec fn spec_transform(self) -> Transform {
        match self {
            Symbol::CyanQ(t) => t,
            Symbol::CyanU(t) => t,
            Symbol::CyanA(t) => t,
        }
    }

    /// The symbol with the given letter and transform.
    pub open spec fn spec_make(kind: SymbolKind, transform: Transform) -> Symbol {
        match kind {
            SymbolKind::CyanQ => Symbol::CyanQ(transform),
            SymbolKind::CyanU => Symbol::CyanU(transform),
            SymbolKind::CyanA => Symbol::CyanA(transform),
        }
    }

    /// The invariant of the type: the transform is valid.
    pub open spec fn wf(self) -> bool {
        self.spec_transform().wf()
    }

    /// The same letter, turned and mirrored further by `transform`.
    pub open spec fn spec_transformed(self, transform: Transform) -> Symbol {
        Self::spec_make(self.spec_kind(), self.spec_transform().spec_compose(transform))
    }

    /// Returns the symbol with the given letter and transform.
    pub fn make(kind: SymbolKind, transform: Transform) -> (s: Symbol)
        ensures
            s == Self::spec_make(kind, transform),
            s.spec_kind() == kind,
            s.spec_transform() == transform,
    {
        match kind {
            SymbolKind::CyanQ => Symbol::CyanQ(transform),
            SymbolKind::CyanU => Symbol::CyanU(transform),
            SymbolKind::CyanA => Symbol::CyanA(transform),
        }
    }

    /// Returns the letter of the symbol.
    pub fn kind(self) -> (k: SymbolKind)
        ensures
            k == self.spec_kind(),
    {
        match self {
            Symbol::CyanQ(_) => SymbolKind::CyanQ,
            Symbol::CyanU(_) => SymbolKind::CyanU,
            Symbol::CyanA(_) => SymbolKind::CyanA,
        }
    }

    /// Returns the way the symbol is turned and mirrored.
    pub fn transform(self) -> (t: Transform)
        ensures
            t == self.spec_transform(),
    {
        match self {
            Symbol::CyanQ(t) => t,
            Symbol::CyanU(t) => t,
            Symbol::CyanA(t) => t,
        }
    }

    /// Returns the same letter, turned and mirrored further by `transform`.
    #[verifier::when_used_as_spec(spec_transformed)]
    pub fn transformed(self, transform: Transform) -> (s: Symbol)
        requires
            self.wf(),
            transform.wf(),
        ensures
            s == self.spec_transformed(transform),
            s.spec_kind() == self.spec_kind(),
            s.wf(),
    {
        let t = self.transform().compose(transform);
        Symbol::make(self.kind(), t)
    }
}

/// Transforming a symbol and then undoing the transform gives the symbol
/// back, and the identity changes no symbol.
pub proof fn lemma_transformed_back(s: Symbol, t: Transform)
    requires
        s.wf(),
        t.wf(),
    ensures
        s.spec_transformed(t).wf(),
        s.spec_transformed(t).spec_transformed(t.spec_inverse()) == s,
        s.spec_transformed(Transform::spec_identity()) == s,
{
    crate::ice::transform::lemma_compose_inverse(t);
    crate::ice::transform::lemma_compose_group(s.spec_transform(), t, t.spec_inverse());
}

impl SymbolKind {
    /// The place of the letter among the letters.
    pub open spec fn index(self) -> int {
        match self {
            SymbolKind::CyanQ => 0,
            SymbolKind::CyanU => 1,
            SymbolKind::CyanA => 2,
        }
    }

    /// The letter at place `index` among the letters; the first for a number
    /// that is no place.
    pub open spec fn at(index: int) -> SymbolKind {
        if index == 1 {
            SymbolKind::CyanU
        } else if index == 2 {
            SymbolKind::CyanA
        } else {
            SymbolKind::CyanQ
        }
    }
}

impl Symbol {
    /// The number under which the symbol is saved: eight times the place of
    /// its letter, plus the number of its transform.
    pub open spec fn spec_code(self) -> int {
        self.spec_kind().index() * 8 + self.spec_transform().spec_code()
    }

    /// The symbol that is saved under `code`; the first letter, unturned,
    /// for a number under which none is saved.
    pub open spec fn from_code(code: int) -> Symbol {
        if 0 <= code < 24 {
            Self::spec_make(SymbolKind::at(code / 8), Transform::from_code(code % 8))
        } else {
            Self::spec_make(SymbolKind::CyanQ, Transform::spec_identity())
        }
    }

    /// The symbol that a saved value stands for.
    pub open spec fn from_model(m: Saved) -> Symbol {
        match m {
            Saved::Integer(_) => Self::from_code(spec_to_i32(m)),
            _ => Self::from_code(-1),
        }
    }

    /// Returns the value that saves the symbol: its number.
    pub fn to_toml(self) -> (v: toml::Value)
        requires
            self.wf(),
        ensures
            value_model(v) == Saved::Integer(self.spec_code()),
    {
        let k: i64 = match self.kind() {
            SymbolKind::CyanQ => 0,
            SymbolKind::CyanU => 1,
            SymbolKind::CyanA => 2,
        };
        integer_value(k * 8 + self.transform().code() as i64)
    }

    /// Returns the symbol that is saved under `code`.
    pub fn with_code(code: i32) -> (s: Symbol)
        ensures
            s == Self::from_code(code as int),
            s.wf(),
    {
        if 0 <= code && code < 24 {
            let kind = if code / 8 == 1 {
                SymbolKind::CyanU
            } else if code / 8 == 2 {
                SymbolKind::CyanA
            } else {
                SymbolKind::CyanQ
            };
            Symbol::make(kind, Transform::with_code(code % 8))
        } else {
            Symbol::make(SymbolKind::CyanQ, Transform::with_code(0))
        }
    }

    /// Returns the symbol that `value` stands for.
    pub fn from_toml(value: &toml::Value) -> (s: Symbol)
        ensures
            s == Self::from_model(value_model(*value)),
            s.wf(),
    {
        match value_as_integer(value) {
            Some(_) => Symbol::with_code(to_i32(value)),
            None => Symbol::with_code(-1),
        }
    }
}

/// A symbol that was saved is read back as itself.
pub proof fn lemma_symbol_saved(s: Symbol)
    requires
        s.wf(),
    ensures
        Symbol::from_model(Saved::Integer(s.spec_code())) == s,
{
    s.spec_transform().lemma_code_saved();
    s.spec_transform().lemma_cases();
}

} // verus!
