//! Canonical text-to-value conversion for the target types a prompt can ask
//! for, and the errors a failed conversion reports.

use vstd::prelude::*;

verus! {

/// Why a line of text did not convert to the target type.
#[derive(Clone, Copy, Debug, PartialEq, Eq, Structural)]
pub enum ConvError {
    /// The trimmed line was empty.
    Empty,
    /// A character was not a digit (or a lone sign) where a number was
    /// expected.
    InvalidDigit,
    /// The number is above the largest value the target type holds.
    PosOverflow,
    /// The number is below the smallest value the target type holds.
    NegOverflow,
}

impl ConvError {
    /// The description of the failure, as shown in a diagnostic.
    pub open spec fn message_spec(self) -> Seq<char> {
        match self {
            ConvError::Empty => "cannot parse integer from empty string"@,
            ConvError::InvalidDigit => "invalid digit found in string"@,
            ConvError::PosOverflow => "number too large to fit in target type"@,
            ConvError::NegOverflow => "number too small to fit in target type"@,
        }
    }

    /// The description of the failure, as shown in a diagnostic.
    pub fn message(&self) -> (r: String)
        ensures
            r@ == self.message_spec(),
    {
        match self {
            ConvError::Empty => String::from_str("cannot parse integer from empty string"),
            ConvError::InvalidDigit => String::from_str("invalid digit found in string"),
            ConvError::PosOverflow => String::from_str("number too large to fit in target type"),
            ConvError::NegOverflow => String::from_str("number too small to fit in target type"),
        }
    }
}

/// Whether `c` is a decimal digit.
pub open spec fn is_digit(c: char) -> bool {
    48 <= c as int && c as int <= 57
}

/// The numeric value of a decimal digit.
pub open spec fn digit_val(c: char) -> int {
    c as int - 48
}

/// Whether every character of `s` is a decimal digit.
pub open spec fn all_digits(s: Seq<char>) -> bool {
    forall|j: int| 0 <= j < s.len() ==> is_digit(s[j])
}

/// The number the digit string `s` denotes in base ten.
pub open spec fn digits_value(s: Seq<char>) -> int
    decreases s.len(),
{
    if s.len() == 0 {
        0
    } else {
        digits_value(s.drop_last()) * 10 + digit_val(s.last())
    }
}

/// Whether `s` starts with an explicit sign.
pub open spec fn has_sign(s: Seq<char>) -> bool {
    s.len() > 0 && (s[0] == '+' || s[0] == '-')
}

/// The digits of `s`, the optional leading sign removed.
pub open spec fn int_digits(s: Seq<char>) -> Seq<char> {
    if has_sign(s) {
        s.drop_first()
    } else {
        s
    }
}

/// Whether `s` denotes a negative number.
pub open spec fn is_negative(s: Seq<char>) -> bool {
    s.len() > 0 && s[0] == '-'
}

/// Whether `s` is an optional sign followed by one or more digits.
pub open spec fn int_shape(s: Seq<char>) -> bool {
    int_digits(s).len() > 0 && all_digits(int_digits(s))
}

/// The integer `s` denotes, meaningful when `int_shape(s)` holds.
pub open spec fn int_value(s: Seq<char>) -> int {
    if is_negative(s) {
        -digits_value(int_digits(s))
    } else {
        digits_value(int_digits(s))
    }
}

/// The canonical conversion of a line of text to a signed 64-bit integer:
/// an optional sign and one or more decimal digits denoting a value the
/// type holds. A malformed shape is reported before a value out of range,
/// so text with a stray character is `InvalidDigit` however long its digit
/// run is.
pub open spec fn parse_i64_spec(s: Seq<char>) -> Result<i64, ConvError> {
    if s.len() == 0 {
        Err(ConvError::Empty)
    } else if !int_shape(s) {
        Err(ConvError::InvalidDigit)
    } else if int_value(s) > i64::MAX {
        Err(ConvError::PosOverflow)
    } else if int_value(s) < i64::MIN {
        Err(ConvError::NegOverflow)
    } else {
        Ok(int_value(s) as i64)
    }
}

/// A digit string denotes a number that is not negative.
proof fn lemma_digits_value_nonneg(s: Seq<char>)
    requires
        all_digits(s),
    ensures
        digits_value(s) >= 0,
    decreases s.len(),
{
    if s.len() > 0 {
        assert(all_digits(s.drop_last()));
        lemma_digits_value_nonneg(s.drop_last());
    }
}

/// Appending digits never shrinks the denoted number.
proof fn lemma_digits_value_prefix_le(s: Seq<char>, k: int)
    requires
        all_digits(s),
        0 <= k <= s.len(),
    ensures
        digits_value(s.subrange(0, k)) <= digits_value(s),
    decreases s.len() - k,
{
    if k == s.len() {
        assert(s.subrange(0, k) =~= s);
    } else {
        assert(s.subrange(0, k + 1).drop_last() =~= s.subrange(0, k));
        assert(all_digits(s.subrange(0, k)));
        lemma_digits_value_nonneg(s.subrange(0, k));
        assert(digits_value(s.subrange(0, k + 1)) == digits_value(s.subrange(0, k)) * 10
            + digit_val(s[k]));
        lemma_digits_value_prefix_le(s, k + 1);
    }
}

/// The canonical conversion of a line of text to a signed 64-bit integer.
#[verifier::loop_isolation(false)]
pub fn parse_i64(s: &str) -> (r: Result<i64, ConvError>)
    ensures
        r == parse_i64_spec(s@),
{
    let n: usize = s.unicode_len();
    if n == 0 {
        return Err(ConvError::Empty);
    }
    let first = s.get_char(0);
    let neg = first == '-';
    let start: usize = if first == '-' || first == '+' {
        1
    } else {
        0
    };
    let ghost ds = s@.subrange(start as int, n as int);
    proof {
        assert(int_digits(s@) =~= ds);
    }
    if start == n {
        return Err(ConvError::InvalidDigit);
    }
    let mut i: usize = start;
    while i < n
        invariant
            start <= i <= n,
            forall|j: int| start <= j < i ==> is_digit(s@[j]),
        decreases n - i,
    {
        let c = s.get_char(i);
        let cv: u32 = c as u32;
        if cv < 48 || cv > 57 {
            proof {
                assert(!is_digit(ds[i - start]));
            }
            return Err(ConvError::InvalidDigit);
        }
        i = i + 1;
    }
    proof {
        assert(forall|j: int| 0 <= j < ds.len() ==> ds[j] == s@[start + j]);
        assert(all_digits(ds));
    }
    let limit: u64 = if neg {
        9223372036854775808
    } else {
        9223372036854775807
    };
    let mut mag: u64 = 0;
    let mut k: usize = start;
    while k < n
        invariant
            start <= k <= n,
            mag == digits_value(ds.subrange(0, k - start)),
            mag <= limit,
        decreases n - k,
    {
        let c = s.get_char(k);
        let d: u64 = (c as u32 - 48) as u64;
        proof {
            assert(is_digit(ds[k - start]));
            assert(d == digit_val(ds[k - start]));
            assert(ds.subrange(0, k - start + 1).drop_last() =~= ds.subrange(0, k - start));
        }
        let wide: u128 = (mag as u128) * 10 + (d as u128);
        if wide > (limit as u128) {
            proof {
                lemma_digits_value_prefix_le(ds, k - start + 1);
            }
            if neg {
                return Err(ConvError::NegOverflow);
            } else {
                return Err(ConvError::PosOverflow);
            }
        }
        mag = wide as u64;
        k = k + 1;
    }
    proof {
        assert(ds.subrange(0, n - start) =~= ds);
    }
    if neg {
        if mag == 9223372036854775808 {
            Ok(i64::MIN)
        } else {
            Ok(-(mag as i64))
        }
    } else {
        Ok(mag as i64)
    }
}

/// A type a prompt can ask for: it has a display name and a canonical,
/// deterministic text-to-value conversion that can fail with a
/// [`ConvError`]. The reader is generic over this capability and depends
/// on no specific type.
pub trait Target: View + Sized {
    /// Whether the trimmed text converts to a value of this type.
    spec fn accepts(text: Seq<char>) -> bool;

    /// The error reported when the text does not convert.
    spec fn err_spec(text: Seq<char>) -> ConvError;

    /// The abstract value of the text, meaningful when `accepts` holds.
    spec fn value_spec(text: Seq<char>) -> Self::V;

    /// The display name of the target type.
    spec fn name_spec() -> Seq<char>;

    /// The canonical text-to-value conversion for this type.
    fn parse_text(text: &str) -> (r: Result<Self, ConvError>)
        ensures
            r is Ok <==> Self::accepts(text@),
            r matches Ok(v) ==> v@ == Self::value_spec(text@),
            r matches Err(e) ==> e == Self::err_spec(text@),
    ;

    /// The display name of the target type.
    fn display_name() -> (r: String)
        ensures
            r@ == Self::name_spec(),
    ;
}

impl Target for i64 {
    open spec fn accepts(text: Seq<char>) -> bool {
        parse_i64_spec(text) is Ok
    }

    open spec fn err_spec(text: Seq<char>) -> ConvError {
        parse_i64_spec(text)->Err_0
    }

    open spec fn value_spec(text: Seq<char>) -> i64 {
        parse_i64_spec(text)->Ok_0
    }

    open spec fn name_spec() -> Seq<char> {
        "i64"@
    }

    fn parse_text(text: &str) -> (r: Result<i64, ConvError>) {
        parse_i64(text)
    }

    fn display_name() -> (r: String) {
        String::from_str("i64")
    }
}

impl Target for String {
    /// The identity conversion: every line of text is accepted as it is.
    open spec fn accepts(text: Seq<char>) -> bool {
        true
    }

    open spec fn err_spec(text: Seq<char>) -> ConvError {
        arbitrary()
    }

    open spec fn value_spec(text: Seq<char>) -> Seq<char> {
        text
    }

    open spec fn name_spec() -> Seq<char> {
        "String"@
    }

    fn parse_text(text: &str) -> (r: Result<String, ConvError>) {
        Ok(String::from_str(text))
    }

    fn display_name() -> (r: String) {
        String::from_str("String")
    }
}

} // verus!
