//! Small fixed-size vectors with a component type and a dimension chosen at
//! compile time.

use core::ops::{Add, Div, Index, Mul, Neg, Sub};
use vstd::prelude::*;
use vstd::std_specs::ops::{AddSpec, DivSpec, MulSpec, NegSpec, SubSpec};

verus! {

/// A vector of `N` components of type `T`. `IS_UNIT` marks vectors that are
/// meant to have length one. The view is the sequence of the components.
#[derive(Copy, Clone, Debug, PartialEq)]
pub struct BaseVector<T, const N: usize, const IS_UNIT: bool> {
    data: [T; N],
}

impl<T, const N: usize, const IS_UNIT: bool> View for BaseVector<T, N, IS_UNIT> {
    type V = Seq<T>;

    closed spec fn view(&self) -> Seq<T> {
        self.data@
    }
}

impl<T: Copy, const N: usize, const IS_UNIT: bool> BaseVector<T, N, IS_UNIT> {
    /// The vector with the given components.
    pub fn from_array(data: [T; N]) -> (v: Self)
        ensures
            v@ == data@,
    {
        Self { data }
    }

    /// The vector whose components all are `v`.
    pub fn splat(v: T) -> (r: Self)
        ensures
            r@.len() == N,
            forall|i: int| 0 <= i < N ==> r@[i] == v,
    {
        Self { data: [v;N] }
    }

    /// The components, borrowed.
    pub fn as_array(&self) -> (a: &[T; N])
        ensures
            a@ == self@,
    {
        &self.data
    }

    /// The components.
    pub fn to_array(self) -> (a: [T; N])
        ensures
            a@ == self@,
    {
        self.data
    }

    /// The component at position `index`.
    pub fn get(&self, index: usize) -> (c: T)
        requires
            index < N,
        ensures
            c == self@[index as int],
    {
        self.data[index]
    }

    /// Replaces the component at position `index`.
    pub fn set(&mut self, index: usize, v: T)
        requires
            index < N,
        ensures
            final(self)@ == old(self)@.update(index as int, v),
    {
        self.data[index] = v;
    }
}

impl<T: Copy, const IS_UNIT: bool> BaseVector<T, 2, IS_UNIT> {
    /// The vector `(x, y)`.
    pub fn new(x: T, y: T) -> (v: Self)
        ensures
            v@ == seq![x, y],
    {
        let v = Self { data: [x, y] };
        v
    }

    /// The first component.
    pub fn x(&self) -> (c: T)
        ensures
            c == self@[0],
    {
        self.data[0]
    }

    /// The second component.
    pub fn y(&self) -> (c: T)
        ensures
            c == self@[1],
    {
        self.data[1]
    }

    /// Replaces the first component.
    pub fn set_x(&mut self, v: T)
        ensures
            final(self)@ == old(self)@.update(0, v),
    {
        self.data[0] = v;
    }

    /// Replaces the second component.
    pub fn set_y(&mut self, v: T)
        ensures
            final(self)@ == old(self)@.update(1, v),
    {
        self.data[1] = v;
    }
}

impl<T: Copy, const IS_UNIT: bool> BaseVector<T, 3, IS_UNIT> {
    /// The vector `(x, y, z)`.
    pub fn new(x: T, y: T, z: T) -> (v: Self)
        ensures
            v@ == seq![x, y, z],
    {
        let v = Self { data: [x, y, z] };
        v
    }

    /// The first component.
    pub fn x(&self) -> (c: T)
        ensures
            c == self@[0],
    {
        self.data[0]
    }

    /// The second component.
    pub fn y(&self) -> (c: T)
        ensures
            c == self@[1],
    {
        self.data[1]
    }

    /// The third component.
    pub fn z(&self) -> (c: T)
        ensures
            c == self@[2],
    {
        self.data[2]
    }

    /// Replaces the first component.
    pub fn set_x(&mut self, v: T)
        ensures
            final(self)@ == old(self)@.update(0, v),
    {
        self.data[0] = v;
    }

    /// Replaces the second component.
    pub fn set_y(&mut self, v: T)
        ensures
            final(self)@ == old(self)@.update(1, v),
    {
        self.data[1] = v;
    }

    /// Replaces the third component.
    pub fn set_z(&mut self, v: T)
        ensures
            final(self)@ == old(self)@.update(2, v),
    {
        self.data[2] = v;
    }
}

impl<T: Copy, const IS_UNIT: bool> BaseVector<T, 4, IS_UNIT> {
    /// The vector `(x, y, z, w)`.
    pub fn new(x: T, y: T, z: T, w: T) -> (v: Self)
        ensures
            v@ == seq![x, y, z, w],
    {
        let v = Self { data: [x, y, z, w] };
        v
    }

    /// The first component.
    pub fn x(&self) -> (c: T)
        ensures
            c == self@[0],
    {
        self.data[0]
    }

    /// The second component.
    pub fn y(&self) -> (c: T)
        ensures
            c == self@[1],
    {
        self.data[1]
    }

    /// The third component.
    pub fn z(&self) -> (c: T)
        ensures
            c == self@[2],
    {
        self.data[2]
    }

    /// The fourth component.
    pub fn w(&self) -> (c: T)
        ensures
            c == self@[3],
    {
        self.data[3]
    }

    /// Replaces the first component.
    pub fn set_x(&mut self, v: T)
        ensures
            final(self)@ == old(self)@.update(0, v),
    {
        self.data[0] = v;
    }

    /// Replaces the second component.
    pub fn set_y(&mut self, v: T)
        ensures
            final(self)@ == old(self)@.update(1, v),
    {
        self.data[1] = v;
    }

    /// Replaces the third component.
    pub fn set_z(&mut self, v: T)
        ensures
            final(self)@ == old(self)@.update(2, v),
    {
        self.data[2] = v;
    }

    /// Replaces the fourth component.
    pub fn set_w(&mut self, v: T)
        ensures
            final(self)@ == old(self)@.update(3, v),
    {
        self.data[3] = v;
    }
}

/// The sum of the products of the first `upto` components of `a` and `b`,
/// added one after the other to `start`.
pub open spec fn dot_upto<T: Add<Output = T> + Mul<Output = T>>(
    start: T,
    a: Seq<T>,
    b: Seq<T>,
    upto: int,
) -> T
    decreases upto,
{
    if upto <= 0 {
        start
    } else {
        dot_upto(start, a, b, upto - 1).add_spec(a[upto - 1].mul_spec(b[upto - 1]))
    }
}

/// Whether every product and every sum on the way to `dot_upto` is defined.
pub open spec fn dot_defined<T: Add<Output = T> + Mul<Output = T>>(
    start: T,
    a: Seq<T>,
    b: Seq<T>,
    upto: int,
) -> bool
    decreases upto,
{
    if upto <= 0 {
        true
    } else {
        &&& dot_defined(start, a, b, upto - 1)
        &&& a[upto - 1].mul_req(b[upto - 1])
        &&& dot_upto(start, a, b, upto - 1).add_req(a[upto - 1].mul_spec(b[upto - 1]))
    }
}

impl<T, const N: usize, const IS_UNIT: bool> BaseVector<T, N, IS_UNIT> where
    T: Copy + Add<Output = T> + Mul<Output = T> + Default,
 {
    /// The inner product: starting from the default value of `T`, the
    /// products of the components are added up from first to last.
    pub fn dot(&self, rhs: &Self) -> (r: T)
        requires
            T::obeys_add_spec(),
            T::obeys_mul_spec(),
            forall|zero: T|
                call_ensures(T::default, (), zero) ==> dot_defined(zero, self@, rhs@, N as int),
        ensures
            exists|zero: T|
                call_ensures(T::default, (), zero) && r == dot_upto(zero, self@, rhs@, N as int),
    {
        let mut acc: T = T::default();
        let ghost zero = acc;
        let mut i: usize = 0;
        while i < N
            invariant
                i <= N,
                T::obeys_add_spec(),
                T::obeys_mul_spec(),
                self@.len() == N,
                rhs@.len() == N,
                dot_defined(zero, self@, rhs@, N as int),
                acc == dot_upto(zero, self@, rhs@, i as int),
            decreases N - i,
        {
            proof {
                lemma_dot_defined_prefix(zero, self@, rhs@, i as int + 1, N as int);
            }
            acc = acc + (self.data[i] * rhs.data[i]);
            i += 1;
        }
        acc
    }
}

/// If the inner product is defined up to `upto`, it is defined up to every
/// earlier position.
pub proof fn lemma_dot_defined_prefix<T: Add<Output = T> + Mul<Output = T>>(
    start: T,
    a: Seq<T>,
    b: Seq<T>,
    at: int,
    upto: int,
)
    requires
        at <= upto,
        dot_defined(start, a, b, upto),
    ensures
        dot_defined(start, a, b, at),
    decreases upto - at,
{
    if at < upto {
        lemma_dot_defined_prefix(start, a, b, at, upto - 1);
    }
}

/// The sum of the squares of the first `upto` components.
pub open spec fn squares_upto(a: Seq<i32>, upto: int) -> int
    decreases upto,
{
    if upto <= 0 {
        0
    } else {
        squares_upto(a, upto - 1) + a[upto - 1] * a[upto - 1]
    }
}

impl<const N: usize, const IS_UNIT: bool> BaseVector<i32, N, IS_UNIT> {
    /// The squared Euclidean length.
    pub fn length_squared(&self) -> (r: i32)
        requires
            forall|k: int| 0 <= k <= N ==> squares_upto(self@, k) <= i32::MAX,
        ensures
            r == squares_upto(self@, N as int),
    {
        let mut acc: i32 = 0;
        let mut i: usize = 0;
        while i < N
            invariant
                i <= N,
                self@.len() == N,
                forall|k: int| 0 <= k <= N ==> squares_upto(self@, k) <= i32::MAX,
                acc == squares_upto(self@, i as int),
                acc >= 0,
            decreases N - i,
        {
            let c = self.data[i];
            assert(squares_upto(self@, i + 1) == acc + c * c);
            assert(0 <= c * c) by (nonlinear_arith);
            acc = acc + c * c;
            i += 1;
        }
        acc
    }
}

/// The componentwise sum of `a` and `b`.
pub open spec fn sum_of<T: Add<Output = T>>(a: Seq<T>, b: Seq<T>) -> Seq<T> {
    Seq::new(a.len(), |i: int| a[i].add_spec(b[i]))
}

impl<T, const N: usize, const IS_UNIT: bool> Add for BaseVector<T, N, IS_UNIT> where T: Copy + Add<Output = T> {
    type Output = Self;

    /// The componentwise sum.
    fn add(self, rhs: Self) -> (out: Self) {
        let mut out = self;
        let mut i: usize = 0;
        while i < N
            invariant
                i <= N,
                T::obeys_add_spec(),
                self@.len() == N,
                rhs@.len() == N,
                out@.len() == N,
                forall|k: int| 0 <= k < N ==> (#[trigger] self@[k]).add_req(rhs@[k]),
                forall|k: int| 0 <= k < i ==> out@[k] == self@[k].add_spec(rhs@[k]),
                forall|k: int| i <= k < N ==> out@[k] == self@[k],
            decreases N - i,
        {
            out.data[i] = out.data[i] + rhs.data[i];
            i += 1;
        }
        proof {
            assert(out@ =~= sum_of(self@, rhs@));
            Self::lemma_with_components(out);
        }
        out
    }
}

impl<T, const N: usize, const IS_UNIT: bool> vstd::std_specs::ops::AddSpecImpl for BaseVector<T, N, IS_UNIT> where T: Copy + Add<Output = T> {
    open spec fn obeys_add_spec() -> bool {
        T::obeys_add_spec()
    }

    open spec fn add_req(self, rhs: Self) -> bool {
        &&& T::obeys_add_spec()
        &&& forall|k: int| 0 <= k < N ==> (#[trigger] self@[k]).add_req(rhs@[k])
    }

    open spec fn add_spec(self, rhs: Self) -> Self {
        Self::with_components(sum_of(self@, rhs@))
    }
}

/// The componentwise difference of `a` and `b`.
pub open spec fn difference_of<T: Sub<Output = T>>(a: Seq<T>, b: Seq<T>) -> Seq<T> {
    Seq::new(a.len(), |i: int| a[i].sub_spec(b[i]))
}

impl<T, const N: usize, const IS_UNIT: bool> Sub for BaseVector<T, N, IS_UNIT> where T: Copy + Sub<Output = T> {
    type Output = Self;

    /// The componentwise difference.
    fn sub(self, rhs: Self) -> (out: Self) {
        let mut out = self;
        let mut i: usize = 0;
        while i < N
            invariant
                i <= N,
                T::obeys_sub_spec(),
                self@.len() == N,
                rhs@.len() == N,
                out@.len() == N,
                forall|k: int| 0 <= k < N ==> (#[trigger] self@[k]).sub_req(rhs@[k]),
                forall|k: int| 0 <= k < i ==> out@[k] == self@[k].sub_spec(rhs@[k]),
                forall|k: int| i <= k < N ==> out@[k] == self@[k],
            decreases N - i,
        {
            out.data[i] = out.data[i] - rhs.data[i];
            i += 1;
        }
        proof {
            assert(out@ =~= difference_of(self@, rhs@));
            Self::lemma_with_components(out);
        }
        out
    }
}

impl<T, const N: usize, const IS_UNIT: bool> vstd::std_specs::ops::SubSpecImpl for BaseVector<T, N, IS_UNIT> where T: Copy + Sub<Output = T> {
    open spec fn obeys_sub_spec() -> bool {
        T::obeys_sub_spec()
    }

    open spec fn sub_req(self, rhs: Self) -> bool {
        &&& T::obeys_sub_spec()
        &&& forall|k: int| 0 <= k < N ==> (#[trigger] self@[k]).sub_req(rhs@[k])
    }

    open spec fn sub_spec(self, rhs: Self) -> Self {
        Self::with_components(difference_of(self@, rhs@))
    }
}

/// The componentwise negation of `a`.
pub open spec fn negation_of<T: Neg<Output = T>>(a: Seq<T>) -> Seq<T> {
    Seq::new(a.len(), |i: int| a[i].neg_spec())
}

impl<T, const N: usize, const IS_UNIT: bool> Neg for BaseVector<T, N, IS_UNIT> where T: Copy + Neg<Output = T> {
    type Output = Self;

    /// The componentwise negation.
    fn neg(self) -> (out: Self) {
        let mut out = self;
        let mut i: usize = 0;
        while i < N
            invariant
                i <= N,
                T::obeys_neg_spec(),
                self@.len() == N,
                out@.len() == N,
                forall|k: int| 0 <= k < N ==> (#[trigger] self@[k]).neg_req(),
                forall|k: int| 0 <= k < i ==> out@[k] == self@[k].neg_spec(),
                forall|k: int| i <= k < N ==> out@[k] == self@[k],
            decreases N - i,
        {
            out.data[i] = out.data[i].neg();
            i += 1;
        }
        proof {
            assert(out@ =~= negation_of(self@));
            Self::lemma_with_components(out);
        }
        out
    }
}

impl<T, const N: usize, const IS_UNIT: bool> vstd::std_specs::ops::NegSpecImpl for BaseVector<T, N, IS_UNIT> where T: Copy + Neg<Output = T> {
    open spec fn obeys_neg_spec() -> bool {
        T::obeys_neg_spec()
    }

    open spec fn neg_req(self) -> bool {
        &&& T::obeys_neg_spec()
        &&& forall|k: int| 0 <= k < N ==> (#[trigger] self@[k]).neg_req()
    }

    open spec fn neg_spec(self) -> Self {
        Self::with_components(negation_of(self@))
    }
}

/// Each component of `a` times `factor`.
pub open spec fn scaled<T: Mul<Output = T>>(a: Seq<T>, factor: T) -> Seq<T> {
    Seq::new(a.len(), |i: int| a[i].mul_spec(factor))
}

impl<T, const N: usize, const IS_UNIT: bool> Mul<T> for BaseVector<T, N, IS_UNIT> where T: Copy + Mul<Output = T> {
    type Output = Self;

    /// The vector with each component multiplied by `rhs`.
    fn mul(self, rhs: T) -> (out: Self) {
        let mut out = self;
        let mut i: usize = 0;
        while i < N
            invariant
                i <= N,
                T::obeys_mul_spec(),
                self@.len() == N,
                out@.len() == N,
                forall|k: int| 0 <= k < N ==> (#[trigger] self@[k]).mul_req(rhs),
                forall|k: int| 0 <= k < i ==> out@[k] == self@[k].mul_spec(rhs),
                forall|k: int| i <= k < N ==> out@[k] == self@[k],
            decreases N - i,
        {
            out.data[i] = out.data[i] * rhs;
            i += 1;
        }
        proof {
            assert(out@ =~= scaled(self@, rhs));
            Self::lemma_with_components(out);
        }
        out
    }
}

impl<T, const N: usize, const IS_UNIT: bool> vstd::std_specs::ops::MulSpecImpl<T> for BaseVector<T, N, IS_UNIT> where T: Copy + Mul<Output = T> {
    open spec fn obeys_mul_spec() -> bool {
        T::obeys_mul_spec()
    }

    open spec fn mul_req(self, rhs: T) -> bool {
        &&& T::obeys_mul_spec()
        &&& forall|k: int| 0 <= k < N ==> (#[trigger] self@[k]).mul_req(rhs)
    }

    open spec fn mul_spec(self, rhs: T) -> Self {
        Self::with_components(scaled(self@, rhs))
    }
}

/// Each component of `a` divided by `divisor`.
pub open spec fn divided<T: Div<Output = T>>(a: Seq<T>, divisor: T) -> Seq<T> {
    Seq::new(a.len(), |i: int| a[i].div_spec(divisor))
}

impl<T, const N: usize, const IS_UNIT: bool> Div<T> for BaseVector<T, N, IS_UNIT> where T: Copy + Div<Output = T> {
    type Output = Self;

    /// The vector with each component divided by `rhs`.
    fn div(self, rhs: T) -> (out: Self) {
        let mut out = self;
        let mut i: usize = 0;
        while i < N
            invariant
                i <= N,
                T::obeys_div_spec(),
                self@.len() == N,
                out@.len() == N,
                forall|k: int| 0 <= k < N ==> (#[trigger] self@[k]).div_req(rhs),
                forall|k: int| 0 <= k < i ==> out@[k] == self@[k].div_spec(rhs),
                forall|k: int| i <= k < N ==> out@[k] == self@[k],
            decreases N - i,
        {
            out.data[i] = out.data[i] / rhs;
            i += 1;
        }
        proof {
            assert(out@ =~= divided(self@, rhs));
            Self::lemma_with_components(out);
        }
        out
    }
}

impl<T, const N: usize, const IS_UNIT: bool> vstd::std_specs::ops::DivSpecImpl<T> for BaseVector<T, N, IS_UNIT> where T: Copy + Div<Output = T> {
    open spec fn obeys_div_spec() -> bool {
        T::obeys_div_spec()
    }

    open spec fn div_req(self, rhs: T) -> bool {
        &&& T::obeys_div_spec()
        &&& forall|k: int| 0 <= k < N ==> (#[trigger] self@[k]).div_req(rhs)
    }

    open spec fn div_spec(self, rhs: T) -> Self {
        Self::with_components(divided(self@, rhs))
    }
}

impl<T, const N: usize, const IS_UNIT: bool> From<[T; N]> for BaseVector<T, N, IS_UNIT> {
    /// The vector with the given components.
    fn from(value: [T; N]) -> (v: Self) {
        let v = Self { data: value };
        proof {
            Self::lemma_with_components(v);
        }
        v
    }
}

impl<T, const N: usize, const IS_UNIT: bool> vstd::std_specs::convert::FromSpecImpl<[T; N]> for BaseVector<T, N, IS_UNIT> {
    open spec fn obeys_from_spec() -> bool {
        true
    }

    open spec fn from_spec(value: [T; N]) -> Self {
        Self::with_components(value@)
    }
}

impl<T, const N: usize, const IS_UNIT: bool> Index<usize> for BaseVector<T, N, IS_UNIT> {
    type Output = T;

    /// The component at position `index`.
    fn index(&self, index: usize) -> (c: &T)
        ensures
            *c == self@[index as int],
    {
        &self.data[index]
    }
}

impl<T, const N: usize, const IS_UNIT: bool> vstd::std_specs::core::IndexSpecImpl<usize> for BaseVector<T, N, IS_UNIT> {
    open spec fn index_req(&self, index: &usize) -> bool {
        *index < N
    }
}

impl<T, const N: usize, const IS_UNIT: bool> BaseVector<T, N, IS_UNIT> {
    /// The vector with the components `parts`.
    pub closed spec fn with_components(parts: Seq<T>) -> Self {
        BaseVector { data: choose|data: [T; N]| data@ == parts }
    }

    /// A vector is the vector with its components.
    pub proof fn lemma_with_components(v: Self)
        ensures
            Self::with_components(v@) == v,
    {
        let chosen = choose|data: [T; N]| data@ == v@;
        assert(chosen =~= v.data);
    }
}

pub type Vector2i = BaseVector<i32, 2, false>;

pub type Vector3i = BaseVector<i32, 3, false>;

pub type Vector4i = BaseVector<i32, 4, false>;

} // verus!
