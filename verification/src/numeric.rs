//! Exact fixed-width integer constants and IEEE bit patterns.
use vstd::prelude::*;
use vstd::string::*;

use crate::kinds::IntegerKind;

verus! {

/// Why a numeric constant operation was rejected.
#[derive(Clone, Copy, Debug, PartialEq, Eq, Structural)]
pub enum NumericError {
    InvalidLiteral,
    OutOfRange,
    KindMismatch,
    Overflow,
    DivisionByZero,
}

/// The value that a bit pattern of `kind` denotes (two's complement for signed kinds).
pub open spec fn decode_bits(kind: IntegerKind, raw: int) -> int {
    let b = raw % kind.modulus();
    if kind.signed_kind() && b >= kind.modulus() / 2 {
        b - kind.modulus()
    } else {
        b
    }
}

/// The bit pattern of `kind` that denotes `value`.
pub open spec fn encode_value(kind: IntegerKind, value: int) -> int {
    if value < 0 {
        value + kind.modulus()
    } else {
        value
    }
}

/// Rust's truncating division: the quotient rounds toward zero.
pub open spec fn truncating_div(a: int, b: int) -> int {
    let q: int = (abs(a) / abs(b)) as int;
    if (a < 0) != (b < 0) {
        -q
    } else {
        q
    }
}

/// Rust's truncating remainder: it takes the sign of the dividend.
pub open spec fn truncating_rem(a: int, b: int) -> int {
    let r: int = (abs(a) % abs(b)) as int;
    if a < 0 {
        -r
    } else {
        r
    }
}

pub open spec fn abs(a: int) -> nat {
    if a < 0 {
        (-a) as nat
    } else {
        a as nat
    }
}

/// One canonical fixed-width integer value: the exact bit pattern of its kind.
#[derive(Clone, Copy, Debug, PartialEq, Eq, Structural, Hash, PartialOrd, Ord)]
pub struct IntegerValue {
    kind: IntegerKind,
    bits: u64,
}

/// `outcome` is the value `x` of kind `kind` when `x` fits the kind, else `failure`.
pub open spec fn integer_outcome(
    outcome: Result<IntegerValue, NumericError>,
    kind: IntegerKind,
    x: int,
    failure: NumericError,
) -> bool {
    if kind.holds(x) {
        outcome matches Ok(v) && v.integer_kind() == kind && v.value() == x
    } else {
        outcome == Err::<IntegerValue, NumericError>(failure)
    }
}

// ---------------------------------------------------------------------------
// Decimal literal model
// ---------------------------------------------------------------------------

/// The literal with every `_` separator removed.
pub open spec fn strip_separators(s: Seq<char>) -> Seq<char>
    decreases s.len(),
{
    if s.len() == 0 {
        s
    } else if s.last() == '_' {
        strip_separators(s.drop_last())
    } else {
        strip_separators(s.drop_last()).push(s.last())
    }
}

pub open spec fn literal_is_negative(normalized: Seq<char>) -> bool {
    normalized.len() > 0 && normalized[0] == '-'
}

/// The normalized literal without its leading minus sign.
pub open spec fn literal_magnitude(normalized: Seq<char>) -> Seq<char> {
    if literal_is_negative(normalized) {
        normalized.drop_first()
    } else {
        normalized
    }
}

pub open spec fn is_decimal_digit(c: char) -> bool {
    '0' <= c && c <= '9'
}

pub open spec fn all_decimal_digits(s: Seq<char>) -> bool {
    forall|i: int| 0 <= i < s.len() ==> is_decimal_digit(#[trigger] s[i])
}

/// The number that a string of decimal digits spells.
pub open spec fn digits_value(s: Seq<char>) -> nat
    decreases s.len(),
{
    if s.len() == 0 {
        0
    } else {
        digits_value(s.drop_last()) * 10 + ((s.last() as int - '0' as int) as nat)
    }
}

/// A decimal literal is well formed when, separators removed and an optional
/// leading `-` dropped, it is a non-empty run of decimal digits.
pub open spec fn decimal_literal_well_formed(text: Seq<char>) -> bool {
    let m = literal_magnitude(strip_separators(text));
    m.len() > 0 && all_decimal_digits(m)
}

/// The signed number that a well-formed decimal literal spells.
pub open spec fn decimal_literal_value(text: Seq<char>) -> int {
    let n = strip_separators(text);
    let v = digits_value(literal_magnitude(n)) as int;
    if literal_is_negative(n) {
        -v
    } else {
        v
    }
}

/// The decimal spelling of `x`: a `-` before the digits of a negative number.
pub open spec fn integer_text(x: int) -> Seq<char> {
    if x < 0 {
        "-"@ + crate::canonical::decimal_text((-x) as nat)
    } else {
        crate::canonical::decimal_text(x as nat)
    }
}

proof fn lemma_no_separators(s: Seq<char>)
    requires
        forall|k: int| 0 <= k < s.len() ==> #[trigger] s[k] != '_',
    ensures
        strip_separators(s) == s,
    decreases s.len(),
{
    if s.len() > 0 {
        lemma_no_separators(s.drop_last());
        assert(s.drop_last().push(s.last()) =~= s);
    }
}

proof fn lemma_digit_values_agree(s: Seq<char>)
    ensures
        digits_value(s) == crate::tsv::decimal_value(s),
    decreases s.len(),
{
    if s.len() > 0 {
        lemma_digit_values_agree(s.drop_last());
    }
}

/// The decimal spelling of any integer is a well-formed literal that reads
/// back as that integer.
pub proof fn law_integer_text_reads_back(x: int)
    ensures
        decimal_literal_well_formed(integer_text(x)),
        decimal_literal_value(integer_text(x)) == x,
{
    reveal_strlit("-");
    let m: nat = if x < 0 {
        (-x) as nat
    } else {
        x as nat
    };
    let digits = crate::canonical::decimal_text(m);
    crate::descriptors::lemma_decimal(m);
    lemma_digit_values_agree(digits);
    let t = integer_text(x);
    assert forall|k: int| 0 <= k < t.len() implies #[trigger] t[k] != '_' by {
        if x < 0 {
            if k > 0 {
                assert(t[k] == digits[k - 1]);
            }
        } else {
            assert(t[k] == digits[k]);
        }
    }
    lemma_no_separators(t);
    if x < 0 {
        assert(t[0] == '-');
        assert(t.drop_first() =~= digits);
    } else {
        assert(crate::tsv::is_digit(digits[0]));
    }
    assert(literal_magnitude(t) == digits);
}

/// Whether a well-formed literal denotes a value of `kind`.
pub open spec fn decimal_literal_fits(text: Seq<char>, kind: IntegerKind) -> bool {
    kind.holds(decimal_literal_value(text))
}

proof fn lemma_digits_value_step(m: Seq<char>, c: char)
    ensures
        digits_value(m.push(c)) == digits_value(m) * 10 + ((c as int - '0' as int) as nat),
{
    assert(m.push(c).drop_last() =~= m);
}

proof fn lemma_big_stays_big(v: nat, d: nat, limit: nat)
    requires
        v > limit,
    ensures
        v * 10 + d > limit,
{
    assert(v * 10 + d >= v) by (nonlinear_arith)
        requires
            v >= 0,
            d >= 0,
    ;
}

impl IntegerValue {
    /// What every value keeps: its bit pattern fits its kind's width. A
    /// caller holding a value learns it from `use_type_invariant`.
    #[verifier::type_invariant]
    pub closed spec fn wf(self) -> bool {
        (self.bits as int) < self.kind.modulus()
    }

    /// Two values of one kind that denote the same integer are the same value.
    pub proof fn lemma_determined_by_kind_and_value(a: Self, b: Self)
        requires
            a.wf(),
            b.wf(),
            a.integer_kind() == b.integer_kind(),
            a.value() == b.value(),
        ensures
            a == b,
    {
        let m = a.kind.modulus();
        vstd::arithmetic::div_mod::lemma_small_mod(a.bits as nat, m as nat);
        vstd::arithmetic::div_mod::lemma_small_mod(b.bits as nat, m as nat);
        assert(a.bits == b.bits);
    }

    /// The integer kind of the value.
    pub closed spec fn integer_kind(self) -> IntegerKind {
        self.kind
    }

    /// The mathematical value denoted.
    pub closed spec fn value(self) -> int {
        decode_bits(self.kind, self.bits as int)
    }

    /// Every value lies in the range of its kind.
    pub proof fn lemma_value_in_range(self)
        ensures
            self.integer_kind().holds(self.value()),
    {
    }

    /// Parses one decimal integer spelling for an exact integer kind.
    ///
    /// Underscores are separators and are ignored. A malformed literal is an
    /// [`NumericError::InvalidLiteral`]; a well-formed one outside the kind's
    /// range is [`NumericError::OutOfRange`].
    pub fn parse_decimal(text: &str, kind: IntegerKind) -> (r: Result<IntegerValue, NumericError>)
        ensures
            !decimal_literal_well_formed(text@) ==> r == Err::<IntegerValue, NumericError>(
                NumericError::InvalidLiteral,
            ),
            decimal_literal_well_formed(text@) && decimal_literal_fits(text@, kind) ==> (r matches Ok(v)
                && v.integer_kind() == kind && v.value() == decimal_literal_value(text@)),
            decimal_literal_well_formed(text@) && !decimal_literal_fits(text@, kind) ==> r == Err::<
                IntegerValue,
                NumericError,
            >(NumericError::OutOfRange),
    {
        let limit: u128 = 0x2_0000_0000_0000_0000;
        let n = text.unicode_len();
        let mut i: usize = 0;
        let mut seen = false;
        let mut negative = false;
        let mut nonempty = false;
        let mut digits_ok = true;
        let mut acc: u128 = 0;
        let mut big = false;
        let ghost mut norm: Seq<char> = Seq::empty();
        assert(text@.take(0) =~= Seq::<char>::empty());
        while i < n
            invariant
                n == text@.len(),
                i <= n,
                limit == 0x2_0000_0000_0000_0000,
                norm == strip_separators(text@.take(i as int)),
                seen == (norm.len() > 0),
                negative == literal_is_negative(norm),
                nonempty == (literal_magnitude(norm).len() > 0),
                digits_ok == all_decimal_digits(literal_magnitude(norm)),
                digits_ok && !big ==> acc == digits_value(literal_magnitude(norm)) && acc <= limit,
                digits_ok && big ==> digits_value(literal_magnitude(norm)) > limit,
            decreases n - i,
        {
            let c = text.get_char(i);
            proof {
                assert(text@.take(i + 1).drop_last() =~= text@.take(i as int));
                assert(text@.take(i + 1).last() == c);
            }
            if c != '_' {
                let ghost old_norm = norm;
                let ghost old_mag = literal_magnitude(norm);
                proof {
                    norm = norm.push(c);
                }
                if !seen && c == '-' {
                    negative = true;
                    assert(literal_magnitude(norm) =~= Seq::<char>::empty());
                } else {
                    proof {
                        if seen {
                            assert(norm[0] == old_norm[0]);
                            if negative {
                                assert(norm.drop_first() =~= old_norm.drop_first().push(c));
                            }
                        } else {
                            assert(old_norm =~= Seq::<char>::empty());
                            assert(old_mag =~= Seq::<char>::empty());
                            assert(norm =~= seq![c]);
                        }
                        assert(literal_magnitude(norm) =~= old_mag.push(c));
                        lemma_digits_value_step(old_mag, c);
                    }
                    nonempty = true;
                    if '0' <= c && c <= '9' {
                        let d = (c as u32 - '0' as u32) as u128;
                        if digits_ok {
                            if big {
                                proof {
                                    lemma_big_stays_big(digits_value(old_mag), d as nat, limit as nat);
                                }
                            } else {
                                acc = acc * 10 + d;
                                if acc > limit {
                                    big = true;
                                }
                            }
                        }
                    } else {
                        digits_ok = false;
                    }
                    proof {
                        let m2 = old_mag.push(c);
                        assert(forall|k: int| 0 <= k < old_mag.len() ==> m2[k] == old_mag[k]);
                        assert(m2[old_mag.len() as int] == c);
                        if all_decimal_digits(m2) {
                            assert forall|k: int| 0 <= k < old_mag.len() implies is_decimal_digit(
                                #[trigger] old_mag[k],
                            ) by {
                                assert(is_decimal_digit(m2[k]));
                            }
                            assert(is_decimal_digit(m2[old_mag.len() as int]));
                        }
                    }
                    assert(digits_ok == all_decimal_digits(literal_magnitude(norm)));
                }
                seen = true;
            }
            i = i + 1;
        }
        proof {
            assert(text@.take(n as int) =~= text@);
        }
        if !nonempty || !digits_ok {
            return Err(NumericError::InvalidLiteral);
        }
        if big {
            return Err(NumericError::OutOfRange);
        }
        if kind.is_signed() {
            let half: u128 = match kind {
                IntegerKind::Int8 => 0x80,
                IntegerKind::Int16 => 0x8000,
                IntegerKind::Int32 => 0x8000_0000,
                _ => 0x8000_0000_0000_0000,
            };
            if negative {
                if acc > half {
                    return Err(NumericError::OutOfRange);
                }
                Self::from_signed(kind, -(acc as i128))
            } else {
                if acc >= half {
                    return Err(NumericError::OutOfRange);
                }
                Self::from_signed(kind, acc as i128)
            }
        } else {
            if negative && acc != 0 {
                return Err(NumericError::OutOfRange);
            }
            Self::from_unsigned(kind, acc)
        }
    }

    pub fn kind(self) -> (r: IntegerKind)
        ensures
            r == self.integer_kind(),
    {
        self.kind
    }

    /// The exact bit pattern of the value in its kind's width.
    pub fn bits(self) -> (r: u64)
        ensures
            r as int == encode_value(self.integer_kind(), self.value()),
    {
        proof {
            use_type_invariant(&self);
        }
        self.bits
    }

    /// The value as a signed integer, for signed kinds only.
    pub fn signed(self) -> (r: Option<i64>)
        ensures
            r is Some <==> self.integer_kind().signed_kind(),
            r matches Some(x) ==> x as int == self.value(),
    {
        proof {
            use_type_invariant(&self);
        }
        if !self.kind.is_signed() {
            return None;
        }
        let (half, modulus): (i128, i128) = match self.kind {
            IntegerKind::Int8 => (0x80, 0x100),
            IntegerKind::Int16 => (0x8000, 0x1_0000),
            IntegerKind::Int32 => (0x8000_0000, 0x1_0000_0000),
            _ => (0x8000_0000_0000_0000, 0x1_0000_0000_0000_0000),
        };
        let b = self.bits as i128;
        let v = if b >= half {
            b - modulus
        } else {
            b
        };
        Some(v as i64)
    }

    /// The decimal spelling of a value parses, in the value's kind, back to
    /// the same value: parsing it meets the kind's range and denotes the
    /// value, and two values of one kind denoting one integer are equal.
    pub proof fn law_decimal_text_round_trip(self)
        requires
            self.wf(),
        ensures
            decimal_literal_well_formed(integer_text(self.value())),
            decimal_literal_fits(integer_text(self.value()), self.integer_kind()),
            decimal_literal_value(integer_text(self.value())) == self.value(),
            forall|parsed: Self|
                parsed.wf() && parsed.integer_kind() == self.integer_kind() && #[trigger] parsed.value()
                    == decimal_literal_value(integer_text(self.value())) ==> parsed == self,
    {
        law_integer_text_reads_back(self.value());
        assert forall|parsed: Self|
            parsed.wf() && parsed.integer_kind() == self.integer_kind() && #[trigger] parsed.value()
                == decimal_literal_value(integer_text(self.value())) implies parsed == self by {
            Self::lemma_determined_by_kind_and_value(parsed, self);
        }
    }

    /// The value in decimal, with a `-` for a negative value: the text that
    /// [`IntegerValue::parse_decimal`] reads back as this value.
    pub fn to_decimal_string(self) -> (r: String)
        ensures
            r@ == integer_text(self.value()),
    {
        let mut out = String::new();
        match self.signed() {
            Some(x) => {
                if x < 0 {
                    out.append("-");
                    let magnitude: u64 = (0i128 - x as i128) as u64;
                    crate::canonical::push_decimal(&mut out, magnitude);
                } else {
                    crate::canonical::push_decimal(&mut out, x as u64);
                }
            },
            None => {
                proof {
                    use_type_invariant(&self);
                }
                crate::canonical::push_decimal(&mut out, self.bits);
            },
        }
        proof {
            reveal_strlit("-");
            assert(out@ =~= integer_text(self.value()));
        }
        out
    }

    /// The value as an unsigned integer, for unsigned kinds only.
    pub fn unsigned(self) -> (r: Option<u64>)
        ensures
            r is Some <==> !self.integer_kind().signed_kind(),
            r matches Some(x) ==> x as int == self.value(),
    {
        proof {
            use_type_invariant(&self);
        }
        if self.kind.is_signed() {
            None
        } else {
            Some(self.bits)
        }
    }

    fn as_i128(self) -> (r: i128)
        requires
            self.integer_kind().signed_kind(),
        ensures
            r as int == self.value(),
    {
        match self.signed() {
            Some(v) => v as i128,
            None => 0,
        }
    }

    fn as_u128(self) -> (r: u128)
        requires
            !self.integer_kind().signed_kind(),
        ensures
            r as int == self.value(),
    {
        match self.unsigned() {
            Some(v) => v as u128,
            None => 0,
        }
    }

    fn from_signed(kind: IntegerKind, value: i128) -> (r: Result<IntegerValue, NumericError>)
        ensures
            !kind.signed_kind() ==> r == Err::<IntegerValue, NumericError>(NumericError::KindMismatch),
            kind.signed_kind() ==> integer_outcome(r, kind, value as int, NumericError::OutOfRange),
    {
        if !kind.is_signed() {
            return Err(NumericError::KindMismatch);
        }
        let (half, modulus): (i128, i128) = match kind {
            IntegerKind::Int8 => (0x80, 0x100),
            IntegerKind::Int16 => (0x8000, 0x1_0000),
            IntegerKind::Int32 => (0x8000_0000, 0x1_0000_0000),
            _ => (0x8000_0000_0000_0000, 0x1_0000_0000_0000_0000),
        };
        if value < -half || value > half - 1 {
            return Err(NumericError::OutOfRange);
        }
        let encoded: i128 = if value < 0 {
            value + modulus
        } else {
            value
        };
        let result = IntegerValue { kind, bits: encoded as u64 };
        assert(result.value() == value as int);
        Ok(result)
    }

    fn from_unsigned(kind: IntegerKind, value: u128) -> (r: Result<IntegerValue, NumericError>)
        ensures
            kind.signed_kind() ==> r == Err::<IntegerValue, NumericError>(NumericError::KindMismatch),
            !kind.signed_kind() ==> integer_outcome(r, kind, value as int, NumericError::OutOfRange),
    {
        if kind.is_signed() {
            return Err(NumericError::KindMismatch);
        }
        let maximum: u128 = match kind {
            IntegerKind::UInt8 => 0xff,
            IntegerKind::UInt16 => 0xffff,
            IntegerKind::UInt32 => 0xffff_ffff,
            _ => 0xffff_ffff_ffff_ffff,
        };
        if value > maximum {
            return Err(NumericError::OutOfRange);
        }
        let result = IntegerValue { kind, bits: value as u64 };
        assert(result.value() == value as int);
        Ok(result)
    }

    fn finish_signed(kind: IntegerKind, value: i128) -> (r: Result<IntegerValue, NumericError>)
        requires
            kind.signed_kind(),
        ensures
            integer_outcome(r, kind, value as int, NumericError::Overflow),
    {
        match Self::from_signed(kind, value) {
            Ok(v) => Ok(v),
            Err(_) => Err(NumericError::Overflow),
        }
    }

    fn finish_unsigned(kind: IntegerKind, value: u128) -> (r: Result<IntegerValue, NumericError>)
        requires
            !kind.signed_kind(),
        ensures
            integer_outcome(r, kind, value as int, NumericError::Overflow),
    {
        match Self::from_unsigned(kind, value) {
            Ok(v) => Ok(v),
            Err(_) => Err(NumericError::Overflow),
        }
    }

    /// Checked addition in the operands' common kind.
    pub fn checked_add(self, right: Self) -> (r: Result<IntegerValue, NumericError>)
        ensures
            self.integer_kind() != right.integer_kind() ==> r == Err::<IntegerValue, NumericError>(
                NumericError::KindMismatch,
            ),
            self.integer_kind() == right.integer_kind() ==> integer_outcome(
                r,
                self.integer_kind(),
                self.value() + right.value(),
                NumericError::Overflow,
            ),
    {
        if self.kind != right.kind {
            return Err(NumericError::KindMismatch);
        }
        proof {
            self.lemma_value_in_range();
            right.lemma_value_in_range();
        }
        if self.kind.is_signed() {
            Self::finish_signed(self.kind, self.as_i128() + right.as_i128())
        } else {
            Self::finish_unsigned(self.kind, self.as_u128() + right.as_u128())
        }
    }

    /// Checked subtraction in the operands' common kind.
    pub fn checked_subtract(self, right: Self) -> (r: Result<IntegerValue, NumericError>)
        ensures
            self.integer_kind() != right.integer_kind() ==> r == Err::<IntegerValue, NumericError>(
                NumericError::KindMismatch,
            ),
            self.integer_kind() == right.integer_kind() ==> integer_outcome(
                r,
                self.integer_kind(),
                self.value() - right.value(),
                NumericError::Overflow,
            ),
    {
        if self.kind != right.kind {
            return Err(NumericError::KindMismatch);
        }
        proof {
            self.lemma_value_in_range();
            right.lemma_value_in_range();
        }
        if self.kind.is_signed() {
            Self::finish_signed(self.kind, self.as_i128() - right.as_i128())
        } else {
            let a = self.as_u128();
            let b = right.as_u128();
            if a < b {
                return Err(NumericError::Overflow);
            }
            Self::finish_unsigned(self.kind, a - b)
        }
    }

    /// Checked multiplication in the operands' common kind.
    pub fn checked_multiply(self, right: Self) -> (r: Result<IntegerValue, NumericError>)
        ensures
            self.integer_kind() != right.integer_kind() ==> r == Err::<IntegerValue, NumericError>(
                NumericError::KindMismatch,
            ),
            self.integer_kind() == right.integer_kind() ==> integer_outcome(
                r,
                self.integer_kind(),
                self.value() * right.value(),
                NumericError::Overflow,
            ),
    {
        if self.kind != right.kind {
            return Err(NumericError::KindMismatch);
        }
        proof {
            self.lemma_value_in_range();
            right.lemma_value_in_range();
        }
        if self.kind.is_signed() {
            let a = self.as_i128();
            let b = right.as_i128();
            proof {
                assert(-0x8000_0000_0000_0000 <= a <= 0x7fff_ffff_ffff_ffff);
                assert(-0x8000_0000_0000_0000 <= b <= 0x7fff_ffff_ffff_ffff);
                assert(-0x4000_0000_0000_0000_0000_0000_0000_0000 <= a * b
                    <= 0x4000_0000_0000_0000_0000_0000_0000_0000) by (nonlinear_arith)
                    requires
                        -0x8000_0000_0000_0000 <= a <= 0x7fff_ffff_ffff_ffff,
                        -0x8000_0000_0000_0000 <= b <= 0x7fff_ffff_ffff_ffff,
                ;
            }
            Self::finish_signed(self.kind, a * b)
        } else {
            let a = self.as_u128();
            let b = right.as_u128();
            proof {
                assert(a * b <= 0xffff_ffff_ffff_ffff * 0xffff_ffff_ffff_ffff) by (nonlinear_arith)
                    requires
                        0 <= a <= 0xffff_ffff_ffff_ffff,
                        0 <= b <= 0xffff_ffff_ffff_ffff,
                ;
            }
            Self::finish_unsigned(self.kind, a * b)
        }
    }

    /// Checked truncating division in the operands' common kind.
    pub fn checked_divide(self, right: Self) -> (r: Result<IntegerValue, NumericError>)
        ensures
            self.integer_kind() != right.integer_kind() ==> r == Err::<IntegerValue, NumericError>(
                NumericError::KindMismatch,
            ),
            self.integer_kind() == right.integer_kind() && right.value() == 0 ==> r == Err::<
                IntegerValue,
                NumericError,
            >(NumericError::DivisionByZero),
            self.integer_kind() == right.integer_kind() && right.value() != 0 ==> integer_outcome(
                r,
                self.integer_kind(),
                truncating_div(self.value(), right.value()),
                NumericError::Overflow,
            ),
    {
        if self.kind != right.kind {
            return Err(NumericError::KindMismatch);
        }
        proof {
            use_type_invariant(&right);
            self.lemma_value_in_range();
            right.lemma_value_in_range();
        }
        if right.bits == 0 {
            return Err(NumericError::DivisionByZero);
        }
        assert(right.value() != 0);
        if self.kind.is_signed() {
            let a = self.as_i128();
            let b = right.as_i128();
            let ua: u128 = if a < 0 { (-a) as u128 } else { a as u128 };
            let ub: u128 = if b < 0 { (-b) as u128 } else { b as u128 };
            let q = ua / ub;
            proof {
                assert(q <= ua) by (nonlinear_arith)
                    requires
                        ub >= 1,
                        q == ua / ub,
                ;
            }
            let signed_q: i128 = if (a < 0) != (b < 0) { -(q as i128) } else { q as i128 };
            Self::finish_signed(self.kind, signed_q)
        } else {
            let a = self.as_u128();
            let b = right.as_u128();
            Self::finish_unsigned(self.kind, a / b)
        }
    }

    /// Checked truncating remainder in the operands' common kind.
    pub fn checked_remainder(self, right: Self) -> (r: Result<IntegerValue, NumericError>)
        ensures
            self.integer_kind() != right.integer_kind() ==> r == Err::<IntegerValue, NumericError>(
                NumericError::KindMismatch,
            ),
            self.integer_kind() == right.integer_kind() && right.value() == 0 ==> r == Err::<
                IntegerValue,
                NumericError,
            >(NumericError::DivisionByZero),
            self.integer_kind() == right.integer_kind() && right.value() != 0 ==> integer_outcome(
                r,
                self.integer_kind(),
                truncating_rem(self.value(), right.value()),
                NumericError::Overflow,
            ),
    {
        if self.kind != right.kind {
            return Err(NumericError::KindMismatch);
        }
        proof {
            use_type_invariant(&right);
            self.lemma_value_in_range();
            right.lemma_value_in_range();
        }
        if right.bits == 0 {
            return Err(NumericError::DivisionByZero);
        }
        assert(right.value() != 0);
        if self.kind.is_signed() {
            let a = self.as_i128();
            let b = right.as_i128();
            let ua: u128 = if a < 0 { (-a) as u128 } else { a as u128 };
            let ub: u128 = if b < 0 { (-b) as u128 } else { b as u128 };
            let m = ua % ub;
            proof {
                assert(m < ub) by (nonlinear_arith)
                    requires
                        ub >= 1,
                        m == ua % ub,
                ;
            }
            let signed_m: i128 = if a < 0 { -(m as i128) } else { m as i128 };
            Self::finish_signed(self.kind, signed_m)
        } else {
            let a = self.as_u128();
            let b = right.as_u128();
            Self::finish_unsigned(self.kind, a % b)
        }
    }

    /// Negates a signed value; unsigned kinds have no negation.
    pub fn checked_negate(self) -> (r: Result<IntegerValue, NumericError>)
        ensures
            !self.integer_kind().signed_kind() ==> r == Err::<IntegerValue, NumericError>(
                NumericError::KindMismatch,
            ),
            self.integer_kind().signed_kind() ==> integer_outcome(
                r,
                self.integer_kind(),
                -self.value(),
                NumericError::Overflow,
            ),
    {
        if !self.kind.is_signed() {
            return Err(NumericError::KindMismatch);
        }
        proof {
            self.lemma_value_in_range();
        }
        Self::finish_signed(self.kind, -self.as_i128())
    }
}

/// The two IEEE binary floating-point formats of the language.
#[derive(Clone, Copy, Debug, PartialEq, Eq, Structural, Hash, PartialOrd, Ord)]
pub enum FloatKind {
    Float32,
    Float64,
}

/// One IEEE floating-point constant, kept as its exact bit pattern.
#[derive(Clone, Copy, Debug, PartialEq, Eq, Structural, Hash, PartialOrd, Ord)]
pub enum FloatValue {
    Float32(u32),
    Float64(u64),
}

/// The sign bit of a bit pattern of `kind`.
pub open spec fn float_sign_bit(kind: FloatKind) -> int {
    match kind {
        FloatKind::Float32 => 0x8000_0000,
        FloatKind::Float64 => 0x8000_0000_0000_0000,
    }
}

impl FloatValue {
    pub open spec fn float_kind(self) -> FloatKind {
        match self {
            FloatValue::Float32(_) => FloatKind::Float32,
            FloatValue::Float64(_) => FloatKind::Float64,
        }
    }

    /// The bit pattern, widened to 64 bits.
    pub open spec fn raw_bits(self) -> int {
        match self {
            FloatValue::Float32(b) => b as int,
            FloatValue::Float64(b) => b as int,
        }
    }

    pub fn kind(self) -> (r: FloatKind)
        ensures
            r == self.float_kind(),
    {
        match self {
            FloatValue::Float32(_) => FloatKind::Float32,
            FloatValue::Float64(_) => FloatKind::Float64,
        }
    }

    pub fn bits(self) -> (r: u64)
        ensures
            r as int == self.raw_bits(),
    {
        match self {
            FloatValue::Float32(b) => b as u64,
            FloatValue::Float64(b) => b,
        }
    }

    /// The same format with the sign bit flipped.
    pub open spec fn negated(self) -> FloatValue {
        match self {
            FloatValue::Float32(b) => FloatValue::Float32(
                if b >= 0x8000_0000 {
                    (b - 0x8000_0000) as u32
                } else {
                    (b + 0x8000_0000) as u32
                },
            ),
            FloatValue::Float64(b) => FloatValue::Float64(
                if b >= 0x8000_0000_0000_0000 {
                    (b - 0x8000_0000_0000_0000) as u64
                } else {
                    (b + 0x8000_0000_0000_0000) as u64
                },
            ),
        }
    }

    /// Negating twice gives back the same value, NaN payloads included.
    pub proof fn law_negate_involution(self)
        ensures
            self.negated().negated() == self,
    {
    }

    /// IEEE negation: the same format with the sign bit flipped and every
    /// other bit (NaN payloads included) kept.
    pub fn negate(self) -> (r: FloatValue)
        ensures
            r == self.negated(),
            r.float_kind() == self.float_kind(),
            r.raw_bits() == if self.raw_bits() >= float_sign_bit(self.float_kind()) {
                self.raw_bits() - float_sign_bit(self.float_kind())
            } else {
                self.raw_bits() + float_sign_bit(self.float_kind())
            },
    {
        match self {
            FloatValue::Float32(b) => {
                if b >= 0x8000_0000 {
                    FloatValue::Float32(b - 0x8000_0000)
                } else {
                    FloatValue::Float32(b + 0x8000_0000)
                }
            },
            FloatValue::Float64(b) => {
                if b >= 0x8000_0000_0000_0000 {
                    FloatValue::Float64(b - 0x8000_0000_0000_0000)
                } else {
                    FloatValue::Float64(b + 0x8000_0000_0000_0000)
                }
            },
        }
    }
}

/// Whether an IEEE bit pattern of `kind` is a NaN: all exponent bits set and
/// a non-zero fraction.
pub open spec fn float_is_nan(kind: FloatKind, bits: int) -> bool {
    match kind {
        FloatKind::Float32 => {
            let m = bits % 0x8000_0000;
            m > 0x7f80_0000
        },
        FloatKind::Float64 => {
            let m = bits % 0x8000_0000_0000_0000;
            m > 0x7ff0_0000_0000_0000
        },
    }
}

/// The signed magnitude key of a non-NaN IEEE bit pattern: IEEE values order
/// exactly as these keys do, and both zeros have key 0.
pub open spec fn float_order_key(kind: FloatKind, bits: int) -> int {
    let sign = match kind {
        FloatKind::Float32 => 0x8000_0000int,
        FloatKind::Float64 => 0x8000_0000_0000_0000int,
    };
    if bits >= sign {
        -(bits - sign)
    } else {
        bits
    }
}

pub(crate) fn float_key(kind: FloatKind, bits: u64) -> (r: i128)
    requires
        kind == FloatKind::Float32 ==> bits < 0x1_0000_0000,
    ensures
        r as int == float_order_key(kind, bits as int),
{
    let wide = bits as i128;
    let sign: i128 = match kind {
        FloatKind::Float32 => 0x8000_0000,
        FloatKind::Float64 => 0x8000_0000_0000_0000,
    };
    if wide >= sign {
        -(wide - sign)
    } else {
        wide
    }
}

pub(crate) fn float_nan(kind: FloatKind, bits: u64) -> (r: bool)
    ensures
        r == float_is_nan(kind, bits as int),
{
    match kind {
        FloatKind::Float32 => bits % 0x8000_0000 > 0x7f80_0000,
        FloatKind::Float64 => bits % 0x8000_0000_0000_0000 > 0x7ff0_0000_0000_0000,
    }
}

} // verus!
