//! A signed integer restricted to the range that an IEEE-754 double
//! represents without loss: `-(2^53 - 1) ..= 2^53 - 1`.
#![allow(non_camel_case_types)]

use vstd::prelude::*;

pub mod decimal;
pub mod float;

verus! {

/// Largest integer that a double holds exactly, together with all smaller ones.
pub const MAX_SAFE_INTEGER: i64 = 9007199254740991;

/// Smallest integer of the safe range.
pub const MIN_SAFE_INTEGER: i64 = -9007199254740991;

/// The only way a conversion into `i54` can fail.
#[derive(Debug, Clone, Copy, PartialEq, Eq, Structural)]
pub enum i54Error {
    ConversionFailed,
}

/// Whether `n` lies in the safe range.
pub open spec fn in_safe_range(n: int) -> bool {
    MIN_SAFE_INTEGER <= n <= MAX_SAFE_INTEGER
}

/// What a checked conversion of the integer `n` yields, as a mathematical value.
pub open spec fn checked(n: int) -> Result<int, i54Error> {
    if in_safe_range(n) {
        Ok(n)
    } else {
        Err(i54Error::ConversionFailed)
    }
}

/// A 54-bit signed integer: every value lies in the safe range.
#[derive(Debug, Clone, Copy)]
pub struct i54 {
    value: i64,
}

/// The mathematical value carried by a conversion result.
pub open spec fn model_of(r: Result<i54, i54Error>) -> Result<int, i54Error> {
    match r {
        Ok(v) => Ok(v@),
        Err(e) => Err(e),
    }
}

impl View for i54 {
    type V = int;

    closed spec fn view(&self) -> int {
        self.value as int
    }
}

impl i54 {
    #[verifier::type_invariant]
    closed spec fn inv(self) -> bool {
        in_safe_range(self.value as int)
    }

    /// Builds a value from an integer already known to be in range.
    fn from_in_range(x: i64) -> (r: i54)
        requires
            in_safe_range(x as int),
        ensures
            r@ == x as int,
    {
        i54 { value: x }
    }

    /// Every 32-bit integer fits: this conversion cannot fail.
    pub fn from_i32(x: i32) -> (r: i54)
        ensures
            r@ == x as int,
            Ok::<i54, i54Error>(r) == checked_i54(x as int),
    {
        i54::from_in_range(x as i64)
    }

    /// Checked conversion from a 64-bit integer.
    pub fn try_from_i64(x: i64) -> (r: Result<i54, i54Error>)
        ensures
            model_of(r) == checked(x as int),
            r == checked_i54(x as int),
    {
        if MIN_SAFE_INTEGER <= x && x <= MAX_SAFE_INTEGER {
            Ok(i54::from_in_range(x))
        } else {
            Err(i54Error::ConversionFailed)
        }
    }

    /// Checked conversion from a machine-word unsigned integer.
    pub fn try_from_usize(x: usize) -> (r: Result<i54, i54Error>)
        ensures
            model_of(r) == checked(x as int),
            r == checked_i54(x as int),
    {
        if x as u128 <= MAX_SAFE_INTEGER as u128 {
            Ok(i54::from_in_range(x as i64))
        } else {
            Err(i54Error::ConversionFailed)
        }
    }

    /// Checked conversion from a 128-bit signed integer.
    pub fn try_from_i128(x: i128) -> (r: Result<i54, i54Error>)
        ensures
            model_of(r) == checked(x as int),
            r == checked_i54(x as int),
    {
        if MIN_SAFE_INTEGER as i128 <= x && x <= MAX_SAFE_INTEGER as i128 {
            Ok(i54::from_in_range(x as i64))
        } else {
            Err(i54Error::ConversionFailed)
        }
    }

    /// Checked conversion from a 128-bit unsigned integer.
    pub fn try_from_u128(x: u128) -> (r: Result<i54, i54Error>)
        ensures
            model_of(r) == checked(x as int),
            r == checked_i54(x as int),
    {
        if x <= MAX_SAFE_INTEGER as u128 {
            Ok(i54::from_in_range(x as i64))
        } else {
            Err(i54Error::ConversionFailed)
        }
    }

    /// The value as a plain 64-bit integer.
    /// Whatever way it was built, the value lies in the safe range.
    pub fn as_i64(&self) -> (r: i64)
        ensures
            r as int == self@,
            in_safe_range(self@),
    {
        proof {
            use_type_invariant(self);
        }
        self.value
    }

    /// The value widened to a 128-bit integer.
    pub fn as_i128(&self) -> (r: i128)
        ensures
            r as int == self@,
    {
        self.value as i128
    }

    /// Checked addition: fails when the sum leaves the safe range.
    pub fn checked_add(self, other: i54) -> (r: Result<i54, i54Error>)
        ensures
            model_of(r) == checked(self@ + other@),
    {
        proof {
            use_type_invariant(self);
            use_type_invariant(other);
        }
        i54::try_from_i64(self.value + other.value)
    }

    /// Adds `other` in place; on overflow the value is left as it was.
    pub fn add_assign(&mut self, other: i54) -> (r: Result<(), i54Error>)
        ensures
            r is Ok <==> in_safe_range(old(self)@ + other@),
            r is Ok ==> final(self)@ == old(self)@ + other@,
            r is Err ==> final(self)@ == old(self)@ && r == Err::<(), i54Error>(i54Error::ConversionFailed),
    {
        match self.checked_add(other) {
            Ok(v) => {
                *self = v;
                Ok(())
            },
            Err(e) => Err(e),
        }
    }

    /// Equality of the two values.
    pub fn equals(&self, other: &i54) -> (r: bool)
        ensures
            r == (self@ == other@),
    {
        self.value == other.value
    }

    /// Compares with a 32-bit integer; every such integer is in range.
    pub fn equals_i32(&self, other: i32) -> (r: bool)
        ensures
            r == (self@ == other as int),
    {
        self.value == other as i64
    }

    /// Compares with a machine-word integer after a checked conversion; an
    /// out-of-range operand is simply unequal.
    pub fn equals_usize(&self, other: usize) -> (r: bool)
        ensures
            r == (checked(other as int) == Ok::<int, i54Error>(self@)),
    {
        match i54::try_from_usize(other) {
            Ok(v) => v.value == self.value,
            Err(_) => false,
        }
    }

    /// Compares with a 128-bit signed integer after a checked conversion; an
    /// out-of-range operand is simply unequal.
    pub fn equals_i128(&self, other: i128) -> (r: bool)
        ensures
            r == (checked(other as int) == Ok::<int, i54Error>(self@)),
    {
        match i54::try_from_i128(other) {
            Ok(v) => v.value == self.value,
            Err(_) => false,
        }
    }

    /// Compares with a 128-bit unsigned integer after a checked conversion;
    /// an out-of-range operand is simply unequal.
    pub fn equals_u128(&self, other: u128) -> (r: bool)
        ensures
            r == (checked(other as int) == Ok::<int, i54Error>(self@)),
    {
        match i54::try_from_u128(other) {
            Ok(v) => v.value == self.value,
            Err(_) => false,
        }
    }

    /// Compares with a 64-bit integer after a checked conversion; an
    /// out-of-range operand is simply unequal.
    pub fn equals_i64(&self, other: i64) -> (r: bool)
        ensures
            r == (checked(other as int) == Ok::<int, i54Error>(self@)),
    {
        match i54::try_from_i64(other) {
            Ok(v) => v.value == self.value,
            Err(_) => false,
        }
    }
}

/// The value that a checked conversion of `n` builds.
pub closed spec fn checked_i54(n: int) -> Result<i54, i54Error> {
    if in_safe_range(n) {
        Ok(i54 { value: n as i64 })
    } else {
        Err(i54Error::ConversionFailed)
    }
}

/// A checked conversion either yields exactly its input, which then lies in
/// the safe range, or fails with `ConversionFailed`; there is no third outcome.
pub proof fn lemma_round_trip(x: int)
    ensures
        checked_i54(x) matches Ok(v) ==> v@ == x && in_safe_range(v@),
        checked_i54(x) is Err ==> checked_i54(x) == Err::<i54, i54Error>(i54Error::ConversionFailed),
        model_of(checked_i54(x)) == checked(x),
{
}

/// Every 32-bit signed integer converts successfully.
pub proof fn lemma_i32_total(x: i32)
    ensures
        checked_i54(x as int) is Ok,
{
}

impl PartialEq for i54 {
    fn eq(&self, other: &i54) -> (r: bool) {
        self.equals(other)
    }
}

impl vstd::std_specs::cmp::PartialEqSpecImpl for i54 {
    open spec fn obeys_eq_spec() -> bool {
        true
    }

    open spec fn eq_spec(&self, other: &i54) -> bool {
        self@ == other@
    }
}

impl Eq for i54 {

}

impl PartialEq<i32> for i54 {
    fn eq(&self, other: &i32) -> (r: bool) {
        self.equals_i32(*other)
    }
}

impl vstd::std_specs::cmp::PartialEqSpecImpl<i32> for i54 {
    open spec fn obeys_eq_spec() -> bool {
        true
    }

    open spec fn eq_spec(&self, other: &i32) -> bool {
        self@ == *other as int
    }
}

impl PartialEq<i64> for i54 {
    fn eq(&self, other: &i64) -> (r: bool) {
        self.equals_i64(*other)
    }
}

impl vstd::std_specs::cmp::PartialEqSpecImpl<i64> for i54 {
    open spec fn obeys_eq_spec() -> bool {
        true
    }

    open spec fn eq_spec(&self, other: &i64) -> bool {
        checked(*other as int) == Ok::<int, i54Error>(self@)
    }
}

impl PartialEq<usize> for i54 {
    fn eq(&self, other: &usize) -> (r: bool) {
        self.equals_usize(*other)
    }
}

impl vstd::std_specs::cmp::PartialEqSpecImpl<usize> for i54 {
    open spec fn obeys_eq_spec() -> bool {
        true
    }

    open spec fn eq_spec(&self, other: &usize) -> bool {
        checked(*other as int) == Ok::<int, i54Error>(self@)
    }
}

impl PartialEq<i128> for i54 {
    fn eq(&self, other: &i128) -> (r: bool) {
        self.equals_i128(*other)
    }
}

impl vstd::std_specs::cmp::PartialEqSpecImpl<i128> for i54 {
    open spec fn obeys_eq_spec() -> bool {
        true
    }

    open spec fn eq_spec(&self, other: &i128) -> bool {
        checked(*other as int) == Ok::<int, i54Error>(self@)
    }
}

impl PartialEq<u128> for i54 {
    fn eq(&self, other: &u128) -> (r: bool) {
        self.equals_u128(*other)
    }
}

impl vstd::std_specs::cmp::PartialEqSpecImpl<u128> for i54 {
    open spec fn obeys_eq_spec() -> bool {
        true
    }

    open spec fn eq_spec(&self, other: &u128) -> bool {
        checked(*other as int) == Ok::<int, i54Error>(self@)
    }
}

impl From<i32> for i54 {
    fn from(x: i32) -> (r: i54) {
        i54::from_i32(x)
    }
}

impl vstd::std_specs::convert::FromSpecImpl<i32> for i54 {
    open spec fn obeys_from_spec() -> bool {
        true
    }

    open spec fn from_spec(x: i32) -> i54 {
        checked_i54(x as int)->Ok_0
    }
}

impl TryFrom<i64> for i54 {
    type Error = i54Error;

    fn try_from(x: i64) -> (r: Result<i54, i54Error>) {
        i54::try_from_i64(x)
    }
}

impl vstd::std_specs::convert::TryFromSpecImpl<i64> for i54 {
    open spec fn obeys_try_from_spec() -> bool {
        true
    }

    open spec fn try_from_spec(x: i64) -> Result<i54, i54Error> {
        checked_i54(x as int)
    }
}

impl TryFrom<usize> for i54 {
    type Error = i54Error;

    fn try_from(x: usize) -> (r: Result<i54, i54Error>) {
        i54::try_from_usize(x)
    }
}

impl vstd::std_specs::convert::TryFromSpecImpl<usize> for i54 {
    open spec fn obeys_try_from_spec() -> bool {
        true
    }

    open spec fn try_from_spec(x: usize) -> Result<i54, i54Error> {
        checked_i54(x as int)
    }
}

impl TryFrom<i128> for i54 {
    type Error = i54Error;

    fn try_from(x: i128) -> (r: Result<i54, i54Error>) {
        i54::try_from_i128(x)
    }
}

impl vstd::std_specs::convert::TryFromSpecImpl<i128> for i54 {
    open spec fn obeys_try_from_spec() -> bool {
        true
    }

    open spec fn try_from_spec(x: i128) -> Result<i54, i54Error> {
        checked_i54(x as int)
    }
}

impl TryFrom<u128> for i54 {
    type Error = i54Error;

    fn try_from(x: u128) -> (r: Result<i54, i54Error>) {
        i54::try_from_u128(x)
    }
}

impl vstd::std_specs::convert::TryFromSpecImpl<u128> for i54 {
    open spec fn obeys_try_from_spec() -> bool {
        true
    }

    open spec fn try_from_spec(x: u128) -> Result<i54, i54Error> {
        checked_i54(x as int)
    }
}

impl std::str::FromStr for i54 {
    type Err = i54Error;

    fn from_str(s: &str) -> (r: Result<i54, i54Error>)
        ensures
            model_of(r) == crate::decimal::parsed(s@),
    {
        i54::parse_decimal(s)
    }
}

} // verus!
