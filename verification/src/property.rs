//! Typed input parsing and range validation for property `set` commands,
//! and output formatting for `get`.
//!
//! Parsers and validators are pure: each carries a spec function that its
//! executable method is proved to follow.

use vstd::prelude::*;
use crate::autocomplete::CliCommand;
use crate::terminal::CharacterTerminalWriter;
use crate::utils::{append_bytes, ascii_bytes, bytes_eq, bytes_range, str_to_bytes};

verus! {

/// A structural violation found while parsing or validating a value.
#[derive(Debug, Clone, PartialEq)]
pub enum PropertyValidationError<T> {
    InvalidInput,
    ValueTooSmall { min: T, val: T },
    ValueTooBig { max: T, val: T },
}

/// Whether a byte is an ASCII decimal digit.
pub open spec fn is_digit(b: u8) -> bool {
    48 <= b <= 57
}

/// Whether a byte counts as whitespace for trimming.
pub open spec fn is_space_byte(b: u8) -> bool {
    b == 32 || 9 <= b <= 13
}

/// The numeric value of a digit string.
pub open spec fn digits_val(s: Seq<u8>) -> int
    decreases s.len(),
{
    if s.len() == 0 {
        0
    } else {
        digits_val(s.drop_last()) * 10 + (s.last() - 48)
    }
}

/// Whether a byte string is one or more digits.
pub open spec fn all_digits(s: Seq<u8>) -> bool {
    s.len() > 0 && forall|i: int| 0 <= i < s.len() ==> is_digit(#[trigger] s[i])
}

/// How a signed 64-bit integer reads from bytes: an optional sign, then
/// digits, within range; anything else does not parse.
pub open spec fn parse_i64_spec(s: Seq<u8>) -> Option<i64> {
    let negative = s.len() > 0 && s[0] == 45;
    let digits = if s.len() > 0 && (s[0] == 43 || s[0] == 45) {
        s.skip(1)
    } else {
        s
    };
    if all_digits(digits) {
        let v = if negative {
            -digits_val(digits)
        } else {
            digits_val(digits)
        };
        if i64::MIN <= v <= i64::MAX {
            Some(v as i64)
        } else {
            None
        }
    } else {
        None
    }
}

/// The decimal digits of a non-negative number.
pub open spec fn dec_digits(n: int) -> Seq<u8>
    decreases n,
{
    if n < 10 {
        seq![(48 + if n >= 0 { n } else { 0 }) as u8]
    } else {
        dec_digits(n / 10).push((48 + n % 10) as u8)
    }
}

/// The decimal form of a signed 64-bit integer.
pub open spec fn i64_dec(v: i64) -> Seq<u8> {
    if v < 0 {
        seq![45u8] + dec_digits(-(v as int))
    } else {
        dec_digits(v as int)
    }
}

/// Leading and trailing whitespace removed.
pub open spec fn trim_start_spec(s: Seq<u8>) -> Seq<u8>
    decreases s.len(),
{
    if s.len() > 0 && is_space_byte(s[0]) {
        trim_start_spec(s.skip(1))
    } else {
        s
    }
}

pub open spec fn trim_end_spec(s: Seq<u8>) -> Seq<u8>
    decreases s.len(),
{
    if s.len() > 0 && is_space_byte(s.last()) {
        trim_end_spec(s.drop_last())
    } else {
        s
    }
}

pub open spec fn trim_spec(s: Seq<u8>) -> Seq<u8> {
    trim_end_spec(trim_start_spec(s))
}

/// ASCII lowercase, byte for byte.
pub open spec fn lower_byte(b: u8) -> u8 {
    if 65 <= b <= 90 {
        (b + 32) as u8
    } else {
        b
    }
}

pub open spec fn lower_spec(s: Seq<u8>) -> Seq<u8> {
    s.map_values(|b: u8| lower_byte(b))
}

proof fn lemma_digits_val_bounds(s: Seq<u8>)
    requires
        forall|i: int| 0 <= i < s.len() ==> is_digit(#[trigger] s[i]),
    ensures
        digits_val(s) >= 0,
    decreases s.len(),
{
    if s.len() > 0 {
        lemma_digits_val_bounds(s.drop_last());
    }
}

proof fn lemma_digits_val_take_step(s: Seq<u8>, k: int)
    requires
        0 <= k < s.len(),
    ensures
        digits_val(s.take(k + 1)) == digits_val(s.take(k)) * 10 + (s[k] - 48),
{
    assert(s.take(k + 1).drop_last() =~= s.take(k));
    assert(s.take(k + 1).last() == s[k]);
}

proof fn lemma_digits_val_monotone(s: Seq<u8>, k: int)
    requires
        0 <= k <= s.len(),
        forall|i: int| 0 <= i < s.len() ==> is_digit(#[trigger] s[i]),
    ensures
        digits_val(s.take(k)) <= digits_val(s),
    decreases s.len() - k,
{
    if k < s.len() {
        lemma_digits_val_take_step(s, k);
        lemma_digits_val_bounds(s.take(k));
        assert(digits_val(s.take(k)) * 10 >= digits_val(s.take(k))) by (nonlinear_arith)
            requires
                digits_val(s.take(k)) >= 0,
        ;
        lemma_digits_val_monotone(s, k + 1);
        assert(s.take(s.len() as int) =~= s);
    } else {
        assert(s.take(s.len() as int) =~= s);
    }
}

/// Parse the digit part of an integer; the value comes back exactly while
/// it fits, and an overflow report once it cannot.
fn parse_digits(s: &[u8], from: usize) -> (r: Option<u64>)
    requires
        from as int <= s@.len(),
    ensures
        match r {
            Some(v) => all_digits(s@.skip(from as int)) && v as int == digits_val(
                s@.skip(from as int),
            ),
            None => !all_digits(s@.skip(from as int)) || digits_val(s@.skip(from as int))
                > u64::MAX,
        },
{
    let ghost digits = s@.skip(from as int);
    if from == s.len() {
        return None;
    }
    let mut acc: u64 = 0;
    let mut i: usize = from;
    proof {
        assert(digits.take(0) =~= Seq::<u8>::empty());
    }
    while i < s.len()
        invariant
            from <= i <= s@.len(),
            digits == s@.skip(from as int),
            forall|j: int| 0 <= j < i - from ==> is_digit(#[trigger] digits[j]),
            acc as int == digits_val(digits.take(i - from)),
        decreases s@.len() - i,
    {
        let b = s[i];
        if b < 48 || b > 57 {
            proof {
                assert(digits[i - from] == s@[i as int]);
                assert(!all_digits(digits));
            }
            return None;
        }
        let d = b - 48;
        if acc > (u64::MAX - d as u64) / 10 {
            proof {
                assert(digits[i - from] == s@[i as int]);
                lemma_digits_val_take_step(digits, i - from);
                assert(digits_val(digits.take(i - from + 1)) == acc * 10 + d);
                assert(acc * 10 + d > u64::MAX) by (nonlinear_arith)
                    requires
                        acc > (u64::MAX - d as u64) / 10,
                        0 <= d <= 9,
                        acc <= u64::MAX,
                ;
                if all_digits(digits) {
                    lemma_digits_val_monotone(digits, i - from + 1);
                    assert(digits_val(digits) > u64::MAX);
                }
            }
            return None;
        }
        proof {
            assert(digits[i - from] == s@[i as int]);
            lemma_digits_val_take_step(digits, i - from);
            assert(acc * 10 + d <= u64::MAX) by (nonlinear_arith)
                requires
                    acc <= (u64::MAX - d as u64) / 10,
                    0 <= d <= 9,
        ;
        }
        acc = acc * 10 + d as u64;
        i += 1;
    }
    proof {
        assert(digits.take(i - from) =~= digits);
        assert(all_digits(digits));
    }
    Some(acc)
}

/// Parse a signed 64-bit integer, as `parse_i64_spec` has it.
pub fn parse_i64(s: &[u8]) -> (r: Option<i64>)
    ensures
        r == parse_i64_spec(s@),
{
    let (negative, start): (bool, usize) = if s.len() > 0 && (s[0] == 43 || s[0] == 45) {
        (s[0] == 45, 1)
    } else {
        (false, 0)
    };
    let ghost digits = s@.skip(start as int);
    proof {
        if start == 0 {
            assert(digits =~= s@);
        }
    }
    match parse_digits(s, start) {
        None => {
            proof {
                if all_digits(digits) {
                    lemma_digits_val_bounds(digits);
                }
            }
            None
        },
        Some(m) => {
            proof {
                lemma_digits_val_bounds(digits);
            }
            if negative {
                if m <= i64::MAX as u64 {
                    Some(-(m as i64))
                } else if m == i64::MAX as u64 + 1 {
                    Some(i64::MIN)
                } else {
                    None
                }
            } else {
                if m <= i64::MAX as u64 {
                    Some(m as i64)
                } else {
                    None
                }
            }
        },
    }
}

/// The decimal digits of a number, as `dec_digits` has it.
fn u64_to_dec(n: u64) -> (r: Vec<u8>)
    ensures
        r@ == dec_digits(n as int),
    decreases n,
{
    if n < 10 {
        let mut r: Vec<u8> = Vec::new();
        r.push(48 + n as u8);
        proof {
            assert(r@ =~= dec_digits(n as int));
        }
        r
    } else {
        let mut r = u64_to_dec(n / 10);
        r.push(48 + (n % 10) as u8);
        proof {
            assert(r@ =~= dec_digits(n as int));
        }
        r
    }
}

/// The decimal form of a signed 64-bit integer, as `i64_dec` has it.
pub fn i64_to_dec(v: i64) -> (r: Vec<u8>)
    ensures
        r@ == i64_dec(v),
{
    if v >= 0 {
        u64_to_dec(v as u64)
    } else {
        let m: u64 = if v == i64::MIN {
            9223372036854775808u64
        } else {
            (-v) as u64
        };
        let mut r: Vec<u8> = Vec::new();
        r.push(45);
        let d = u64_to_dec(m);
        append_bytes(&mut r, d.as_slice());
        proof {
            assert(r@ =~= seq![45u8] + dec_digits(-(v as int)));
        }
        r
    }
}

/// Leading and trailing whitespace removed, as `trim_spec` has it.
pub fn trim_bytes(s: &[u8]) -> (r: Vec<u8>)
    ensures
        r@ == trim_spec(s@),
{
    let mut from: usize = 0;
    proof {
        assert(s@.skip(0) =~= s@);
    }
    while from < s.len() && (s[from] == 32 || (9 <= s[from] && s[from] <= 13))
        invariant
            from <= s@.len(),
            trim_start_spec(s@) == trim_start_spec(s@.skip(from as int)),
        decreases s@.len() - from,
    {
        proof {
            assert(s@.skip(from as int).skip(1) =~= s@.skip(from as int + 1));
        }
        from += 1;
    }
    let mut to: usize = s.len();
    proof {
        assert(trim_start_spec(s@.skip(from as int)) =~= s@.skip(from as int));
        assert(s@.skip(from as int).take(to - from) =~= s@.skip(from as int));
    }
    while to > from && (s[to - 1] == 32 || (9 <= s[to - 1] && s[to - 1] <= 13))
        invariant
            from <= to <= s@.len(),
            trim_start_spec(s@) =~= s@.skip(from as int),
            trim_end_spec(s@.skip(from as int)) == trim_end_spec(
                s@.skip(from as int).take(to - from),
            ),
        decreases to,
    {
        proof {
            let cur = s@.skip(from as int).take(to - from);
            assert(cur.last() == s@[to - 1]);
            assert(cur.drop_last() =~= s@.skip(from as int).take(to - 1 - from));
        }
        to -= 1;
    }
    let r = bytes_range(s, from, to);
    proof {
        let cur = s@.skip(from as int).take(to - from);
        assert(trim_end_spec(cur) == cur) by {
            if cur.len() > 0 {
                assert(cur.last() == s@[to - 1]);
            }
        }
        assert(r@ =~= cur);
    }
    r
}

/// ASCII lowercase, as `lower_spec` has it.
pub fn lower_bytes(s: &[u8]) -> (r: Vec<u8>)
    ensures
        r@ == lower_spec(s@),
{
    let mut r: Vec<u8> = Vec::new();
    let mut i: usize = 0;
    while i < s.len()
        invariant
            i <= s@.len(),
            r@ =~= lower_spec(s@).take(i as int),
        decreases s@.len() - i,
    {
        let b = s[i];
        if 65 <= b && b <= 90 {
            r.push(b + 32);
        } else {
            r.push(b);
        }
        proof {
            assert(r@ =~= lower_spec(s@).take(i + 1));
        }
        i += 1;
    }
    proof {
        assert(lower_spec(s@).take(s@.len() as int) =~= lower_spec(s@));
    }
    r
}

/// Value parser: from the raw `set` arguments to a typed value.
pub trait ValueInput<T>: Sized {
    /// What this parser makes of an input.
    spec fn input_spec(&self, s: Seq<u8>) -> Result<T, PropertyValidationError<T>>;

    fn input(&self, s: &[u8]) -> (r: Result<T, PropertyValidationError<T>>)
        ensures
            r == self.input_spec(s@),
    ;
}

/// Value validator: a check run after base parsing.
pub trait ValueInputValidate<T>: Sized {
    /// What this validator makes of a value.
    spec fn validate_spec(&self, val: T) -> Result<(), PropertyValidationError<T>>;

    fn validate(&self, val: &T) -> (r: Result<(), PropertyValidationError<T>>)
        ensures
            r == self.validate_spec(*val),
    ;
}

/// Value formatter: from a typed value to its display bytes.
pub trait ValueOutput<T>: Sized {
    /// What this formatter makes of a value.
    spec fn output_spec(&self, v: T) -> Result<Seq<u8>, PropertyValidationError<T>>;

    fn output(&self, v: &T) -> (r: Result<Vec<u8>, PropertyValidationError<T>>)
        ensures
            match r {
                Ok(b) => self.output_spec(*v) == Ok::<Seq<u8>, PropertyValidationError<T>>(b@),
                Err(e) => self.output_spec(*v) == Err::<Seq<u8>, PropertyValidationError<T>>(e),
            },
    ;
}

/// Parser that reads a value the way the type reads itself from a string.
pub struct ValueInputFromStr;

impl ValueInput<i64> for ValueInputFromStr {
    open spec fn input_spec(&self, s: Seq<u8>) -> Result<i64, PropertyValidationError<i64>> {
        match parse_i64_spec(s) {
            Some(v) => Ok(v),
            None => Err(PropertyValidationError::InvalidInput),
        }
    }

    fn input(&self, s: &[u8]) -> (r: Result<i64, PropertyValidationError<i64>>) {
        match parse_i64(s) {
            Some(v) => Ok(v),
            None => Err(PropertyValidationError::InvalidInput),
        }
    }
}

/// Formatter that writes a value the way the type writes itself.
pub struct ValueOutputToString;

impl ValueOutput<i64> for ValueOutputToString {
    open spec fn output_spec(&self, v: i64) -> Result<Seq<u8>, PropertyValidationError<i64>> {
        Ok(i64_dec(v))
    }

    fn output(&self, v: &i64) -> (r: Result<Vec<u8>, PropertyValidationError<i64>>) {
        Ok(i64_to_dec(*v))
    }
}

/// What the boolean parser makes of an input: case-insensitive `0`, `false`,
/// `off` and `no` are false; `1`, `true`, `on` and `yes` are true.
pub open spec fn parse_bool_spec(s: Seq<u8>) -> Result<bool, PropertyValidationError<bool>> {
    let t = trim_spec(lower_spec(s));
    if t =~= ascii_bytes("0"@) || t =~= ascii_bytes("false"@) || t =~= ascii_bytes("off"@) || t
        =~= ascii_bytes("no"@) {
        Ok(false)
    } else if t =~= ascii_bytes("1"@) || t =~= ascii_bytes("true"@) || t =~= ascii_bytes("on"@)
        || t =~= ascii_bytes("yes"@) {
        Ok(true)
    } else {
        Err(PropertyValidationError::InvalidInput)
    }
}

/// A convenience parser and formatter for boolean properties.
pub struct ValueBool;

impl ValueInput<bool> for ValueBool {
    open spec fn input_spec(&self, s: Seq<u8>) -> Result<bool, PropertyValidationError<bool>> {
        parse_bool_spec(s)
    }

    fn input(&self, s: &[u8]) -> (r: Result<bool, PropertyValidationError<bool>>) {
        proof {
            reveal_strlit("0");
            reveal_strlit("false");
            reveal_strlit("off");
            reveal_strlit("no");
            reveal_strlit("1");
            reveal_strlit("true");
            reveal_strlit("on");
            reveal_strlit("yes");
        }
        let lowered = lower_bytes(s);
        let t = trim_bytes(lowered.as_slice());
        let f0 = str_to_bytes("0");
        let f1 = str_to_bytes("false");
        let f2 = str_to_bytes("off");
        let f3 = str_to_bytes("no");
        if bytes_eq(t.as_slice(), f0.as_slice()) || bytes_eq(t.as_slice(), f1.as_slice())
            || bytes_eq(t.as_slice(), f2.as_slice()) || bytes_eq(t.as_slice(), f3.as_slice()) {
            return Ok(false);
        }
        let t0 = str_to_bytes("1");
        let t1 = str_to_bytes("true");
        let t2 = str_to_bytes("on");
        let t3 = str_to_bytes("yes");
        if bytes_eq(t.as_slice(), t0.as_slice()) || bytes_eq(t.as_slice(), t1.as_slice())
            || bytes_eq(t.as_slice(), t2.as_slice()) || bytes_eq(t.as_slice(), t3.as_slice()) {
            return Ok(true);
        }
        Err(PropertyValidationError::InvalidInput)
    }
}

impl ValueOutput<bool> for ValueBool {
    open spec fn output_spec(&self, v: bool) -> Result<Seq<u8>, PropertyValidationError<bool>> {
        if v {
            Ok(ascii_bytes("true"@))
        } else {
            Ok(ascii_bytes("false"@))
        }
    }

    fn output(&self, v: &bool) -> (r: Result<Vec<u8>, PropertyValidationError<bool>>) {
        proof {
            reveal_strlit("true");
            reveal_strlit("false");
        }
        if *v {
            Ok(str_to_bytes("true"))
        } else {
            Ok(str_to_bytes("false"))
        }
    }
}

/// Lower bound check.
pub struct ValueMin<T> {
    pub min: T,
}

impl ValueInputValidate<i64> for ValueMin<i64> {
    open spec fn validate_spec(&self, val: i64) -> Result<(), PropertyValidationError<i64>> {
        if val < self.min {
            Err(PropertyValidationError::ValueTooSmall { min: self.min, val })
        } else {
            Ok(())
        }
    }

    fn validate(&self, val: &i64) -> (r: Result<(), PropertyValidationError<i64>>) {
        if *val < self.min {
            Err(PropertyValidationError::ValueTooSmall { min: self.min, val: *val })
        } else {
            Ok(())
        }
    }
}

/// Upper bound check.
pub struct ValueMax<T> {
    pub max: T,
}

impl ValueInputValidate<i64> for ValueMax<i64> {
    open spec fn validate_spec(&self, val: i64) -> Result<(), PropertyValidationError<i64>> {
        if val > self.max {
            Err(PropertyValidationError::ValueTooBig { max: self.max, val })
        } else {
            Ok(())
        }
    }

    fn validate(&self, val: &i64) -> (r: Result<(), PropertyValidationError<i64>>) {
        if *val > self.max {
            Err(PropertyValidationError::ValueTooBig { max: self.max, val: *val })
        } else {
            Ok(())
        }
    }
}

/// Two validators run in order; the first failure wins.
pub struct ValueCombineValidators<A, B> {
    pub a: A,
    pub b: B,
}

impl<T, A: ValueInputValidate<T>, B: ValueInputValidate<T>> ValueInputValidate<T> for ValueCombineValidators<
    A,
    B,
> {
    open spec fn validate_spec(&self, val: T) -> Result<(), PropertyValidationError<T>> {
        match self.a.validate_spec(val) {
            Err(e) => Err(e),
            Ok(u) => self.b.validate_spec(val),
        }
    }

    fn validate(&self, val: &T) -> (r: Result<(), PropertyValidationError<T>>) {
        match self.a.validate(val) {
            Err(e) => Err(e),
            Ok(u) => self.b.validate(val),
        }
    }
}

/// A parser followed by a validator.
pub struct ValueInputWithValidation<I, V> {
    pub input: I,
    pub validate: V,
}

impl<T: Copy, I: ValueInput<T>, V: ValueInputValidate<T>> ValueInput<T> for ValueInputWithValidation<
    I,
    V,
> {
    open spec fn input_spec(&self, s: Seq<u8>) -> Result<T, PropertyValidationError<T>> {
        match self.input.input_spec(s) {
            Err(e) => Err(e),
            Ok(v) => match self.validate.validate_spec(v) {
                Err(e) => Err(e),
                Ok(u) => Ok(v),
            },
        }
    }

    fn input(&self, s: &[u8]) -> (r: Result<T, PropertyValidationError<T>>) {
        match self.input.input(s) {
            Err(e) => Err(e),
            Ok(v) => match self.validate.validate(&v) {
                Err(e) => Err(e),
                Ok(u) => Ok(v),
            },
        }
    }
}

/// Data access to a property's stored value.
pub trait CliPropertyData<T>: Sized {
    /// The stored value.
    spec fn data_spec(&self) -> T;

    fn get_value(&self) -> (r: &T)
        ensures
            *r == self.data_spec(),
    ;

    fn set_value(&mut self, value: T)
        ensures
            final(self).data_spec() == value,
    ;
}

/// Owned property that can be changed with `<id>/set <value>` and
/// retrieved with `<id>/get`, or with whatever command patterns its maker
/// chose.
pub struct Property<T, I, O> {
    id: Vec<u8>,
    /// Current value of the property
    value: T,
    input: I,
    output: O,
    command_get: CliCommand,
    command_set: CliCommand,
}

impl<T, I, O> Property<T, I, O> {
    /// The property's name.
    pub closed spec fn id_spec(&self) -> Seq<u8> {
        self.id@
    }

    /// The stored value.
    pub closed spec fn value_spec(&self) -> T {
        self.value
    }

    /// The parser in use.
    pub closed spec fn input_of(&self) -> I {
        self.input
    }

    /// The formatter in use.
    pub closed spec fn output_of(&self) -> O {
        self.output
    }

    /// Everything but the stored value.
    pub open spec fn same_config(&self, other: &Self) -> bool {
        &&& self.id_spec() == other.id_spec()
        &&& self.input_of() == other.input_of()
        &&& self.output_of() == other.output_of()
        &&& self.command_get_model() == other.command_get_model()
        &&& self.command_set_model() == other.command_set_model()
    }

    /// The pattern that retrieves this property.
    pub closed spec fn command_get_model(&self) -> Seq<u8> {
        self.command_get.command@
    }

    /// The pattern that updates this property.
    pub closed spec fn command_set_model(&self) -> Seq<u8> {
        self.command_set.command@
    }

    pub fn command_get(&self) -> (r: &CliCommand)
        ensures
            r.command@ == self.command_get_model(),
    {
        &self.command_get
    }

    pub fn command_set(&self) -> (r: &CliCommand)
        ensures
            r.command@ == self.command_set_model(),
    {
        &self.command_set
    }
}

impl<T: Copy, I: ValueInput<T>, O: ValueOutput<T>> Property<T, I, O> {
    /// Parse and validate `args`; the value changes exactly on success.
    pub fn set(&mut self, args: &[u8]) -> (r: Result<(), PropertyValidationError<T>>)
        ensures
            final(self).same_config(old(self)),
            match old(self).input_of().input_spec(args@) {
                Ok(v) => r is Ok && final(self).value_spec() == v,
                Err(e) => r == Err::<(), PropertyValidationError<T>>(e) && final(self).value_spec()
                    == old(self).value_spec(),
            },
    {
        match self.input.input(args) {
            Ok(v) => {
                self.value = v;
                Ok(())
            },
            Err(e) => Err(e),
        }
    }

    /// Print `<id> = <value>` to the terminal, via the output formatter.
    pub fn get<W: CharacterTerminalWriter>(&self, terminal: &mut W) -> (r: Result<
        (),
        PropertyValidationError<T>,
    >)
        ensures
            final(terminal).newline_bytes() == old(terminal).newline_bytes(),
            match self.output_of().output_spec(self.value_spec()) {
                Ok(b) => r is Ok && final(terminal).written() == old(terminal).written()
                    + self.id_spec() + ascii_bytes(" = "@) + b + old(terminal).newline_bytes(),
                Err(e) => r == Err::<(), PropertyValidationError<T>>(e) && final(terminal).written()
                    == old(terminal).written(),
            },
    {
        proof {
            reveal_strlit(" = ");
        }
        match self.output.output(&self.value) {
            Ok(b) => {
                let mut msg = Vec::new();
                append_bytes(&mut msg, self.id.as_slice());
                let eq = str_to_bytes(" = ");
                append_bytes(&mut msg, eq.as_slice());
                append_bytes(&mut msg, b.as_slice());
                terminal.print(msg.as_slice());
                terminal.print_newline_sequence();
                proof {
                    assert(final(terminal).written() =~= old(terminal).written() + self.id_spec()
                        + ascii_bytes(" = "@) + b@ + old(terminal).newline_bytes());
                }
                Ok(())
            },
            Err(e) => Err(e),
        }
    }
}

impl<T: Copy, I: ValueInput<T>, O: ValueOutput<T>> CliPropertyData<T> for Property<T, I, O> {
    closed spec fn data_spec(&self) -> T {
        self.value
    }

    fn get_value(&self) -> (r: &T) {
        &self.value
    }

    fn set_value(&mut self, value: T) {
        self.value = value;
    }
}

/// The pattern that retrieves a property: `get <id>`.
pub open spec fn get_command_of(id: Seq<u8>) -> Seq<u8> {
    ascii_bytes("get "@) + id
}

/// The pattern that updates a property: `set <id> `, with its trailing
/// delimiter.
pub open spec fn set_command_of(id: Seq<u8>) -> Seq<u8> {
    ascii_bytes("set "@) + id + ascii_bytes(" "@)
}

/// A plain integer property, read and written in decimal.
pub fn new_property(id: &[u8], value: i64) -> (r: Property<i64, ValueInputFromStr, ValueOutputToString>)
    ensures
        r.id_spec() == id@,
        r.value_spec() == value,
        r.command_get_model() == get_command_of(id@),
        r.command_set_model() == set_command_of(id@),
        forall|s: Seq<u8>| #[trigger] r.input_of().input_spec(s) == (ValueInputFromStr).input_spec(
            s,
        ),
        forall|v: i64| #[trigger] r.output_of().output_spec(v) == Ok::<
            Seq<u8>,
            PropertyValidationError<i64>,
        >(i64_dec(v)),
{
    proof {
        reveal_strlit("get ");
        reveal_strlit("set ");
        reveal_strlit(" ");
    }
    let g = str_to_bytes("get ");
    let mut cg = Vec::new();
    append_bytes(&mut cg, g.as_slice());
    append_bytes(&mut cg, id);
    let s = str_to_bytes("set ");
    let sp = str_to_bytes(" ");
    let mut cs = Vec::new();
    append_bytes(&mut cs, s.as_slice());
    append_bytes(&mut cs, id);
    append_bytes(&mut cs, sp.as_slice());
    let mut idv = Vec::new();
    append_bytes(&mut idv, id);
    Property {
        id: idv,
        value,
        input: ValueInputFromStr,
        output: ValueOutputToString,
        command_get: CliCommand { command: cg, help: None },
        command_set: CliCommand { command: cs, help: None },
    }
}

/// A ranged integer property: values outside `[min, max]` are refused with
/// the exact bound that was broken.
pub fn new_property_min_max(id: &[u8], value: i64, min: i64, max: i64) -> (r: Property<
    i64,
    ValueInputWithValidation<ValueInputFromStr, ValueCombineValidators<ValueMin<i64>, ValueMax<i64>>>,
    ValueOutputToString,
>)
    ensures
        r.id_spec() == id@,
        r.value_spec() == value,
        r.command_get_model() == get_command_of(id@),
        r.command_set_model() == set_command_of(id@),
        forall|s: Seq<u8>| #[trigger] r.input_of().input_spec(s) == min_max_parse_spec(s, min, max),
        forall|v: i64| #[trigger] r.output_of().output_spec(v) == Ok::<
            Seq<u8>,
            PropertyValidationError<i64>,
        >(i64_dec(v)),
{
    proof {
        reveal_strlit("get ");
        reveal_strlit("set ");
        reveal_strlit(" ");
    }
    let g = str_to_bytes("get ");
    let mut cg = Vec::new();
    append_bytes(&mut cg, g.as_slice());
    append_bytes(&mut cg, id);
    let s = str_to_bytes("set ");
    let sp = str_to_bytes(" ");
    let mut cs = Vec::new();
    append_bytes(&mut cs, s.as_slice());
    append_bytes(&mut cs, id);
    append_bytes(&mut cs, sp.as_slice());
    let mut idv = Vec::new();
    append_bytes(&mut idv, id);
    Property {
        id: idv,
        value,
        input: ValueInputWithValidation {
            input: ValueInputFromStr,
            validate: ValueCombineValidators { a: ValueMin { min }, b: ValueMax { max } },
        },
        output: ValueOutputToString,
        command_get: CliCommand { command: cg, help: None },
        command_set: CliCommand { command: cs, help: None },
    }
}

proof fn lemma_dec_digits_are_digits(n: int)
    requires
        n >= 0,
    ensures
        all_digits(dec_digits(n)),
    decreases n,
{
    if n >= 10 {
        lemma_dec_digits_are_digits(n / 10);
    }
}

proof fn lemma_dec_digits_value(n: int)
    requires
        n >= 0,
    ensures
        digits_val(dec_digits(n)) == n,
    decreases n,
{
    if n < 10 {
        let d = dec_digits(n);
        assert(d =~= seq![(48 + n) as u8]);
        assert(d.drop_last() =~= Seq::<u8>::empty());
        assert(digits_val(d) == digits_val(Seq::<u8>::empty()) * 10 + (d.last() - 48));
    } else {
        lemma_dec_digits_value(n / 10);
        assert(dec_digits(n).drop_last() =~= dec_digits(n / 10));
    }
}

/// Formatting a value and parsing it back returns the same value.
pub proof fn lemma_i64_dec_parse_roundtrip(v: i64)
    ensures
        parse_i64_spec(i64_dec(v)) == Some(v),
{
    if v >= 0 {
        let d = dec_digits(v as int);
        lemma_dec_digits_are_digits(v as int);
        lemma_dec_digits_value(v as int);
        assert(d.len() > 0);
        assert(d[0] != 45 && d[0] != 43);
    } else {
        let s = seq![45u8] + dec_digits(-(v as int));
        assert(s[0] == 45);
        assert(s.skip(1) =~= dec_digits(-(v as int)));
        lemma_dec_digits_are_digits(-(v as int));
        lemma_dec_digits_value(-(v as int));
    }
}

/// What a ranged integer property accepts: a parsed value within bounds,
/// and the exact error otherwise.
pub open spec fn min_max_parse_spec(s: Seq<u8>, min: i64, max: i64) -> Result<
    i64,
    PropertyValidationError<i64>,
> {
    match parse_i64_spec(s) {
        Option::None => Err(PropertyValidationError::InvalidInput),
        Option::Some(v) => {
            if v < min {
                Err(PropertyValidationError::ValueTooSmall { min, val: v })
            } else if v > max {
                Err(PropertyValidationError::ValueTooBig { max, val: v })
            } else {
                Ok(v)
            }
        },
    }
}

/// A parser for a ranged integer: parse, then check both bounds.
pub fn validate_property_min_max(min: i64, max: i64) -> (r: ValueInputWithValidation<
    ValueInputFromStr,
    ValueCombineValidators<ValueMin<i64>, ValueMax<i64>>,
>)
    ensures
        forall|s: Seq<u8>| #[trigger] r.input_spec(s) == min_max_parse_spec(s, min, max),
{
    let r = ValueInputWithValidation {
        input: ValueInputFromStr,
        validate: ValueCombineValidators { a: ValueMin { min }, b: ValueMax { max } },
    };
    proof {
        assert forall|s: Seq<u8>| #[trigger] r.input_spec(s) == min_max_parse_spec(s, min, max)
        by {}
    }
    r
}

/// A ranged integer property round trip at the value level: the decimal
/// form of any value within the bounds is accepted back as exactly that
/// value.
pub proof fn lemma_min_max_roundtrip(v: i64, min: i64, max: i64)
    requires
        min <= v <= max,
    ensures
        min_max_parse_spec(i64_dec(v), min, max) == Ok::<i64, PropertyValidationError<i64>>(v),
{
    lemma_i64_dec_parse_roundtrip(v);
}

} // verus!
