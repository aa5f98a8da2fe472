use vstd::prelude::*;

verus! {

/// A 2x2 integer matrix, row by row: the point (x, y) goes to
/// (`a`*x + `b`*y, `c`*x + `d`*y).
pub struct Matrix {
    pub a: int,
    pub b: int,
    pub c: int,
    pub d: int,
}

impl Matrix {
    /// The matrix that leaves every point where it is.
    pub open spec fn identity() -> Matrix {
        Matrix { a: 1, b: 0, c: 0, d: 1 }
    }

    /// A quarter turn clockwise, on a screen whose rows grow downwards.
    pub open spec fn quarter_turn() -> Matrix {
        Matrix { a: 0, b: -1, c: 1, d: 0 }
    }

    /// The mirror image that swaps left and right.
    pub open spec fn mirror_horz() -> Matrix {
        Matrix { a: -1, b: 0, c: 0, d: 1 }
    }

    /// The mirror image that swaps up and down.
    pub open spec fn mirror_vert() -> Matrix {
        Matrix { a: 1, b: 0, c: 0, d: -1 }
    }

    /// The matrix product: `rhs` acts first, then `self`.
    pub open spec fn times(self, rhs: Matrix) -> Matrix {
        Matrix {
            a: self.a * rhs.a + self.b * rhs.c,
            b: self.a * rhs.b + self.b * rhs.d,
            c: self.c * rhs.a + self.d * rhs.c,
            d: self.c * rhs.b + self.d * rhs.d,
        }
    }

    /// The determinant.
    pub open spec fn det(self) -> int {
        self.a * self.d - self.b * self.c
    }
}

/// One of the eight ways to turn and mirror a symbol: an optional mirror
/// image that swaps left and right, followed by a number of quarter turns
/// clockwise.
#[derive(Clone, Copy, Debug, PartialEq, Eq, Structural, Hash)]
pub struct Transform {
    turns: u8,
    mirrored: bool,
}

impl Transform {
    /// The invariant of the type: fewer than four quarter turns.
    pub closed spec fn wf(self) -> bool {
        self.turns < 4
    }

    /// The number of quarter turns clockwise, after any mirroring.
    pub closed spec fn spec_turns(self) -> int {
        self.turns as int
    }

    /// True if the symbol is mirrored before it is turned.
    pub closed spec fn spec_mirrored(self) -> bool {
        self.mirrored
    }

    /// The matrix by which this transform moves the points of a symbol.
    pub open spec fn matrix(self) -> Matrix {
        let t = self.spec_turns();
        if !self.spec_mirrored() {
            if t == 0 {
                Matrix { a: 1, b: 0, c: 0, d: 1 }
            } else if t == 1 {
                Matrix { a: 0, b: -1, c: 1, d: 0 }
            } else if t == 2 {
                Matrix { a: -1, b: 0, c: 0, d: -1 }
            } else {
                Matrix { a: 0, b: 1, c: -1, d: 0 }
            }
        } else {
            if t == 0 {
                Matrix { a: -1, b: 0, c: 0, d: 1 }
            } else if t == 1 {
                Matrix { a: 0, b: -1, c: -1, d: 0 }
            } else if t == 2 {
                Matrix { a: 1, b: 0, c: 0, d: -1 }
            } else {
                Matrix { a: 0, b: 1, c: 1, d: 0 }
            }
        }
    }

    /// The transform with the given number of quarter turns and mirroring.
    pub closed spec fn make(turns: int, mirrored: bool) -> Transform {
        Transform { turns: turns as u8, mirrored }
    }

    /// The transform that changes nothing.
    pub open spec fn spec_identity() -> Transform {
        Self::make(0, false)
    }

    /// This transform followed by `other`.
    pub open spec fn spec_compose(self, other: Transform) -> Transform {
        if other.spec_mirrored() {
            Self::make((other.spec_turns() + 4 - self.spec_turns()) % 4, !self.spec_mirrored())
        } else {
            Self::make((other.spec_turns() + self.spec_turns()) % 4, self.spec_mirrored())
        }
    }

    /// The transform that undoes this one.
    pub open spec fn spec_inverse(self) -> Transform {
        if self.spec_mirrored() {
            self
        } else {
            Self::make((4 - self.spec_turns()) % 4, false)
        }
    }

    /// This transform followed by a quarter turn clockwise.
    pub open spec fn spec_rotated_cw(self) -> Transform {
        Self::make((self.spec_turns() + 1) % 4, self.spec_mirrored())
    }

    /// This transform followed by a quarter turn anticlockwise.
    pub open spec fn spec_rotated_ccw(self) -> Transform {
        Self::make((self.spec_turns() + 3) % 4, self.spec_mirrored())
    }

    /// This transform followed by the mirror image that swaps left and right.
    pub open spec fn spec_flipped_horz(self) -> Transform {
        Self::make((4 - self.spec_turns()) % 4, !self.spec_mirrored())
    }

    /// This transform followed by the mirror image that swaps up and down.
    pub open spec fn spec_flipped_vert(self) -> Transform {
        Self::make((6 - self.spec_turns()) % 4, !self.spec_mirrored())
    }

    /// A valid transform has no, one, two or three quarter turns.
    pub proof fn lemma_cases(self)
        requires
            self.wf(),
        ensures
            self.spec_turns() == 0 || self.spec_turns() == 1 || self.spec_turns() == 2
                || self.spec_turns() == 3,
    {
    }

    /// The turns, the mirroring and the matrix of a composition.
    pub proof fn lemma_compose(self, other: Transform)
        requires
            self.wf(),
            other.wf(),
        ensures
            self.spec_compose(other).wf(),
            self.spec_compose(other).spec_mirrored() == (self.spec_mirrored()
                != other.spec_mirrored()),
            self.spec_compose(other).spec_turns() == composed_turns(
                self.spec_turns(),
                other.spec_turns(),
                other.spec_mirrored(),
            ),
    {
        Self::lemma_make((other.spec_turns() + 4 - self.spec_turns()) % 4, !self.spec_mirrored());
        Self::lemma_make((other.spec_turns() + self.spec_turns()) % 4, self.spec_mirrored());
    }

    /// The matrix of a composition is the product of the two matrices, the
    /// first transform acting first.
    pub proof fn lemma_compose_matrix(self, other: Transform)
        requires
            self.wf(),
            other.wf(),
        ensures
            self.spec_compose(other).matrix() == other.matrix().times(self.matrix()),
    {
        self.lemma_compose(other);
        let s = self.spec_turns();
        let o = other.spec_turns();
        let m = self.matrix();
        let n = other.matrix();
        let r = self.spec_compose(other).matrix();
        if s == 0 {
            if o == 0 {
                assert(r == n.times(m));
            } else if o == 1 {
                assert(r == n.times(m));
            } else if o == 2 {
                assert(r == n.times(m));
            } else {
                assert(r == n.times(m));
            }
        } else if s == 1 {
            if o == 0 {
                assert(r == n.times(m));
            } else if o == 1 {
                assert(r == n.times(m));
            } else if o == 2 {
                assert(r == n.times(m));
            } else {
                assert(r == n.times(m));
            }
        } else if s == 2 {
            if o == 0 {
                assert(r == n.times(m));
            } else if o == 1 {
                assert(r == n.times(m));
            } else if o == 2 {
                assert(r == n.times(m));
            } else {
                assert(r == n.times(m));
            }
        } else {
            if o == 0 {
                assert(r == n.times(m));
            } else if o == 1 {
                assert(r == n.times(m));
            } else if o == 2 {
                assert(r == n.times(m));
            } else {
                assert(r == n.times(m));
            }
        }
    }

    /// What `make` makes.
    pub broadcast proof fn lemma_make(turns: int, mirrored: bool)
        requires
            0 <= turns < 4,
        ensures
            (#[trigger] Self::make(turns, mirrored)).wf(),
            Self::make(turns, mirrored).spec_turns() == turns,
            Self::make(turns, mirrored).spec_mirrored() == mirrored,
    {
    }

    /// Two valid transforms with the same turns and mirroring are the same.
    pub proof fn lemma_same(self, other: Transform)
        requires
            self.spec_turns() == other.spec_turns(),
            self.spec_mirrored() == other.spec_mirrored(),
        ensures
            self == other,
    {
    }

    /// Returns the transform that changes nothing.
    #[verifier::when_used_as_spec(spec_identity)]
    pub fn identity() -> (t: Transform)
        ensures
            t == Self::spec_identity(),
            t.wf(),
            t.matrix() == Matrix::identity(),
    {
        Transform { turns: 0, mirrored: false }
    }

    /// Returns true if the transform mirrors the symbol.
    pub fn is_mirrored(self) -> (r: bool)
        ensures
            r == self.spec_mirrored(),
    {
        self.mirrored
    }

    /// Returns the number of quarter turns clockwise that follow any
    /// mirroring.
    pub fn quarter_turns(self) -> (r: u8)
        ensures
            r == self.spec_turns(),
    {
        self.turns
    }

    /// Returns this transform followed by a quarter turn clockwise.
    #[verifier::when_used_as_spec(spec_rotated_cw)]
    pub fn rotated_cw(self) -> (t: Transform)
        requires
            self.wf(),
        ensures
            t == self.spec_rotated_cw(),
            t.wf(),
            t.matrix() == Matrix::quarter_turn().times(self.matrix()),
    {
        Transform { turns: (self.turns + 1) % 4, mirrored: self.mirrored }
    }

    /// Returns this transform followed by a quarter turn anticlockwise.
    #[verifier::when_used_as_spec(spec_rotated_ccw)]
    pub fn rotated_ccw(self) -> (t: Transform)
        requires
            self.wf(),
        ensures
            t == self.spec_rotated_ccw(),
            t.wf(),
            Matrix::quarter_turn().times(t.matrix()) == self.matrix(),
    {
        Transform { turns: (self.turns + 3) % 4, mirrored: self.mirrored }
    }

    /// Returns this transform followed by the mirror image that swaps left
    /// and right.
    #[verifier::when_used_as_spec(spec_flipped_horz)]
    pub fn flipped_horz(self) -> (t: Transform)
        requires
            self.wf(),
        ensures
            t == self.spec_flipped_horz(),
            t.wf(),
            t.matrix() == Matrix::mirror_horz().times(self.matrix()),
    {
        Transform { turns: (4 - self.turns) % 4, mirrored: !self.mirrored }
    }

    /// Returns this transform followed by the mirror image that swaps up and
    /// down.
    #[verifier::when_used_as_spec(spec_flipped_vert)]
    pub fn flipped_vert(self) -> (t: Transform)
        requires
            self.wf(),
        ensures
            t == self.spec_flipped_vert(),
            t.wf(),
            t.matrix() == Matrix::mirror_vert().times(self.matrix()),
    {
        Transform { turns: (6 - self.turns) % 4, mirrored: !self.mirrored }
    }

    /// Returns this transform followed by `other`.
    #[verifier::when_used_as_spec(spec_compose)]
    pub fn compose(self, other: Transform) -> (t: Transform)
        requires
            self.wf(),
            other.wf(),
        ensures
            t == self.spec_compose(other),
            t.wf(),
            t.matrix() == other.matrix().times(self.matrix()),
    {
        proof {
            self.lemma_compose(other);
            self.lemma_compose_matrix(other);
        }
        if other.mirrored {
            Transform { turns: (other.turns + 4 - self.turns) % 4, mirrored: !self.mirrored }
        } else {
            Transform { turns: (other.turns + self.turns) % 4, mirrored: self.mirrored }
        }
    }

    /// Returns the transform that undoes this one.
    #[verifier::when_used_as_spec(spec_inverse)]
    pub fn inverse(self) -> (t: Transform)
        requires
            self.wf(),
        ensures
            t == self.spec_inverse(),
            t.wf(),
            t.matrix().times(self.matrix()) == Matrix::identity(),
            self.matrix().times(t.matrix()) == Matrix::identity(),
    {
        proof {
            self.lemma_cases();
        }
        if self.mirrored {
            self
        } else {
            Transform { turns: (4 - self.turns) % 4, mirrored: false }
        }
    }
}

impl Transform {
    /// The number under which the transform is saved: its quarter turns,
    /// and four more if it mirrors.
    pub open spec fn spec_code(self) -> int {
        self.spec_turns() + (if self.spec_mirrored() { 4int } else { 0int })
    }

    /// The transform that is saved under `code`; the identity for a number
    /// under which none is saved.
    pub open spec fn from_code(code: int) -> Transform {
        if 0 <= code < 8 {
            Self::make(code % 4, code >= 4)
        } else {
            Self::spec_identity()
        }
    }

    /// Returns the number under which the transform is saved.
    pub fn code(self) -> (r: u8)
        requires
            self.wf(),
        ensures
            r == self.spec_code(),
            r < 8,
    {
        if self.mirrored {
            self.turns + 4
        } else {
            self.turns
        }
    }

    /// Returns the transform that is saved under `code`; the identity for a
    /// number under which none is saved.
    pub fn with_code(code: i32) -> (t: Transform)
        ensures
            t == Self::from_code(code as int),
            t.wf(),
    {
        if 0 <= code && code < 8 {
            Transform { turns: (code % 4) as u8, mirrored: code >= 4 }
        } else {
            Transform { turns: 0, mirrored: false }
        }
    }

    /// A transform that was saved is read back as itself.
    pub proof fn lemma_code_saved(self)
        requires
            self.wf(),
        ensures
            Self::from_code(self.spec_code()) == self,
    {
    }
}

/// A transform followed by its inverse changes nothing, and neither does
/// the inverse followed by the transform.
pub proof fn lemma_compose_inverse(t: Transform)
    requires
        t.wf(),
    ensures
        t.spec_compose(t.spec_inverse()) == Transform::spec_identity(),
        t.spec_inverse().spec_compose(t) == Transform::spec_identity(),
        t.spec_inverse().wf(),
{
    broadcast use Transform::lemma_make;

    t.spec_compose(t.spec_inverse()).lemma_same(Transform::spec_identity());
    t.spec_inverse().spec_compose(t).lemma_same(Transform::spec_identity());
}

/// Four quarter turns clockwise in a row give back the transform they
/// started from.
pub proof fn lemma_four_quarter_turns(t: Transform)
    requires
        t.wf(),
    ensures
        t.spec_rotated_cw().spec_rotated_cw().spec_rotated_cw().spec_rotated_cw() == t,
        Transform::spec_identity().spec_rotated_cw().spec_rotated_cw().spec_rotated_cw().spec_rotated_cw()
            == Transform::spec_identity(),
{
    broadcast use Transform::lemma_make;

    let a = t.spec_rotated_cw();
    let b = a.spec_rotated_cw();
    let c = b.spec_rotated_cw();
    let d = c.spec_rotated_cw();
    d.lemma_same(t);
    let i = Transform::spec_identity();
    i.spec_rotated_cw().spec_rotated_cw().spec_rotated_cw().spec_rotated_cw().lemma_same(i);
}

/// Each mirror image undoes itself.
pub proof fn lemma_flips_are_involutions(t: Transform)
    requires
        t.wf(),
    ensures
        t.spec_flipped_horz().spec_flipped_horz() == t,
        t.spec_flipped_vert().spec_flipped_vert() == t,
{
    broadcast use Transform::lemma_make;

    t.spec_flipped_horz().spec_flipped_horz().lemma_same(t);
    t.spec_flipped_vert().spec_flipped_vert().lemma_same(t);
}

/// The number of quarter turns of a transform with `s` turns followed by
/// one with `o` turns that mirrors or not.
pub open spec fn composed_turns(s: int, o: int, o_mirrored: bool) -> int {
    if o_mirrored {
        (o + 4 - s) % 4
    } else {
        (o + s) % 4
    }
}

proof fn lemma_turns_associative(x: int, y: int, y_mirrored: bool, z: int, z_mirrored: bool)
    requires
        0 <= x < 4,
        0 <= y < 4,
        0 <= z < 4,
    ensures
        composed_turns(composed_turns(x, y, y_mirrored), z, z_mirrored) == composed_turns(
            x,
            composed_turns(y, z, z_mirrored),
            y_mirrored != z_mirrored,
        ),
        composed_turns(x, 0, false) == x,
        composed_turns(0, x, false) == x,
{
    assert(x == 0 || x == 1 || x == 2 || x == 3);
    assert(y == 0 || y == 1 || y == 2 || y == 3);
    assert(z == 0 || z == 1 || z == 2 || z == 3);
}

/// Composition is associative, and the identity is neutral for it.
pub proof fn lemma_compose_group(a: Transform, b: Transform, c: Transform)
    requires
        a.wf(),
        b.wf(),
        c.wf(),
    ensures
        a.spec_compose(b).wf(),
        a.spec_compose(b).spec_compose(c) == a.spec_compose(b.spec_compose(c)),
        a.spec_compose(Transform::spec_identity()) == a,
        Transform::spec_identity().spec_compose(a) == a,
{
    let ab = a.spec_compose(b);
    let bc = b.spec_compose(c);
    a.lemma_compose(b);
    b.lemma_compose(c);
    ab.lemma_compose(c);
    a.lemma_compose(bc);
    a.lemma_compose(Transform::spec_identity());
    Transform::spec_identity().lemma_compose(a);
    Transform::lemma_make(0, false);
    let l = ab.spec_compose(c);
    let r = a.spec_compose(bc);
    lemma_turns_associative(
        a.spec_turns(),
        b.spec_turns(),
        b.spec_mirrored(),
        c.spec_turns(),
        c.spec_mirrored(),
    );
    l.lemma_same(r);
    a.spec_compose(Transform::spec_identity()).lemma_same(a);
    Transform::spec_identity().spec_compose(a).lemma_same(a);
}

/// The three named steps are compositions with fixed transforms.
pub proof fn lemma_steps_compose(t: Transform)
    requires
        t.wf(),
    ensures
        t.spec_rotated_cw() == t.spec_compose(Transform::spec_identity().spec_rotated_cw()),
        t.spec_flipped_horz() == t.spec_compose(Transform::spec_identity().spec_flipped_horz()),
        t.spec_flipped_vert() == t.spec_compose(Transform::spec_identity().spec_flipped_vert()),
{
    broadcast use Transform::lemma_make;

    let i = Transform::spec_identity();
    t.spec_rotated_cw().lemma_same(t.spec_compose(i.spec_rotated_cw()));
    t.spec_flipped_horz().lemma_same(t.spec_compose(i.spec_flipped_horz()));
    t.spec_flipped_vert().lemma_same(t.spec_compose(i.spec_flipped_vert()));
}

} // verus!
