//! The values that scripts hand over, and how arguments are read out of them.
use vstd::prelude::*;

use crate::address::{parse_addr_str, prefixed_uint};
use crate::text::{
    chars_of, parse_int_spec, parse_signed, parse_unsigned, same_str, trim, trim_exec,
};

verus! {

/// What a floating-point number is in the types that it is cast to.
#[derive(Clone, Copy, Debug, PartialEq, Eq, Structural)]
pub struct RealParts {
    /// Whether it lies below zero.
    pub negative: bool,
    pub to_usize: usize,
    pub to_isize: isize,
    pub to_u64: u64,
    pub to_i64: i64,
    pub to_u8: u8,
    /// The bits of the nearest single-precision number.
    pub single: u32,
    /// Its own bits.
    pub double: u64,
}

/// A number, in each of the forms in which it can be asked for.
#[derive(Clone, Copy, Debug, PartialEq, Eq, Structural)]
pub struct JsonNumber {
    /// The number, where it is a `u64`.
    pub unsigned: Option<u64>,
    /// The number, where it is an `i64`.
    pub signed: Option<i64>,
    /// The number as a floating-point number.
    pub real_parts: Option<RealParts>,
}

#[derive(Debug)]
pub enum JsonKind {
    Null,
    Bool(bool),
    Number(JsonNumber),
    Text(String),
    List(Vec<Json>),
    Record(Vec<(String, Json)>),
}

/// A value, with its printed form.
#[derive(Debug)]
pub struct Json {
    pub kind: JsonKind,
    /// How the value is printed.
    pub printed: String,
}

/// Why an argument was refused.
#[derive(Debug)]
pub enum ArgError {
    /// The arguments are no list.
    NotAList,
    /// There is no argument with this number.
    Missing(usize),
    NegativeAddress,
    BadNumericAddress,
    /// A text that is no address.
    BadAddressText(String),
    /// A value, as printed, that is no address.
    NotAnAddress(String),
    /// A value, as printed, that is no number.
    NotANumber(String),
    BadInteger,
    BadIntText(String),
    NotAnInteger(String),
    BadUnsigned,
    BadUnsignedText(String),
    NotUnsigned(String),
}

/// The argument number `i`.
pub open spec fn arg_at(args: Json, i: nat) -> Result<Json, ArgError> {
    match args.kind {
        JsonKind::List(v) => if i < v@.len() {
            Ok(v@[i as int])
        } else {
            Err(ArgError::Missing(i as usize))
        },
        _ => Err(ArgError::NotAList),
    }
}

/// The argument number `i`, where it is given and not null.
pub open spec fn opt_arg_at(args: Json, i: nat) -> Option<Json> {
    match args.kind {
        JsonKind::List(v) => if i < v@.len() && !(v@[i as int].kind is Null) {
            Some(v@[i as int])
        } else {
            None
        },
        _ => None,
    }
}

pub fn arg<'a>(args: &'a Json, i: usize) -> (r: Result<&'a Json, ArgError>)
    ensures
        match r {
            Ok(v) => arg_at(*args, i as nat) == Ok::<Json, ArgError>(*v),
            Err(e) => arg_at(*args, i as nat) == Err::<Json, ArgError>(e),
        },
{
    match &args.kind {
        JsonKind::List(v) => if i < v.len() {
            Ok(&v[i])
        } else {
            Err(ArgError::Missing(i))
        },
        _ => Err(ArgError::NotAList),
    }
}

pub fn opt_arg<'a>(args: &'a Json, i: usize) -> (r: Option<&'a Json>)
    ensures
        match r {
            Some(v) => opt_arg_at(*args, i as nat) == Some(*v),
            None => opt_arg_at(*args, i as nat) is None,
        },
{
    match &args.kind {
        JsonKind::List(v) => if i < v.len() {
            match &v[i].kind {
                JsonKind::Null => None,
                _ => Some(&v[i]),
            }
        } else {
            None
        },
        _ => None,
    }
}

/// The first member of that name.
pub open spec fn member_in(s: Seq<(String, Json)>, name: Seq<char>) -> Option<Json>
    decreases s.len(),
{
    if s.len() == 0 {
        None
    } else {
        match member_in(s.drop_last(), name) {
            Some(v) => Some(v),
            None => if s.last().0@ == name {
                Some(s.last().1)
            } else {
                None
            },
        }
    }
}

pub fn find_member<'a>(s: &'a Vec<(String, Json)>, name: &str) -> (r: Option<&'a Json>)
    ensures
        match r {
            Some(v) => member_in(s@, name@) == Some(*v),
            None => member_in(s@, name@) is None,
        },
{
    let mut i: usize = 0;
    while i < s.len()
        invariant
            i <= s@.len(),
            member_in(s@.subrange(0, i as int), name@) is None,
        decreases s@.len() - i,
    {
        assert(s@.subrange(0, i + 1).drop_last() =~= s@.subrange(0, i as int));
        if same_str(s[i].0.as_str(), name) {
            proof {
                lemma_member_stays(s@, i + 1, name@);
            }
            return Some(&s[i].1);
        }
        i += 1;
    }
    assert(s@.subrange(0, s@.len() as int) =~= s@);
    None
}

proof fn lemma_member_stays(s: Seq<(String, Json)>, n: int, name: Seq<char>)
    requires
        0 <= n <= s.len(),
        member_in(s.subrange(0, n), name) is Some,
    ensures
        member_in(s, name) == member_in(s.subrange(0, n), name),
    decreases s.len() - n,
{
    if n < s.len() {
        assert(s.subrange(0, n + 1).drop_last() =~= s.subrange(0, n));
        lemma_member_stays(s, n + 1, name);
    } else {
        assert(s.subrange(0, n) =~= s);
    }
}

/// The member `name` of a value that may be a record.
pub open spec fn member(v: Option<Json>, name: Seq<char>) -> Option<Json> {
    match v {
        Some(j) => match j.kind {
            JsonKind::Record(s) => member_in(s@, name),
            _ => None,
        },
        None => None,
    }
}

pub fn get<'a>(v: Option<&'a Json>, name: &str) -> (r: Option<&'a Json>)
    ensures
        match (v, r) {
            (Some(j), Some(m)) => member(Some(*j), name@) == Some(*m),
            (Some(j), None) => member(Some(*j), name@) is None,
            (None, r) => r is None,
        },
{
    match v {
        Some(j) => match &j.kind {
            JsonKind::Record(s) => find_member(s, name),
            _ => None,
        },
        None => None,
    }
}

/// The number that a value is.
pub open spec fn real_of(v: Option<Json>) -> Option<RealParts> {
    match v {
        Some(j) => match j.kind {
            JsonKind::Number(n) => n.real_parts,
            _ => None,
        },
        None => None,
    }
}

/// The text that a value is.
pub open spec fn str_of(v: Option<Json>) -> Option<String> {
    match v {
        Some(j) => match j.kind {
            JsonKind::Text(s) => Some(s),
            _ => None,
        },
        None => None,
    }
}

/// The truth value that a value is.
pub open spec fn bool_of(v: Option<Json>) -> Option<bool> {
    match v {
        Some(j) => match j.kind {
            JsonKind::Bool(b) => Some(b),
            _ => None,
        },
        None => None,
    }
}

/// The value behind an optional reference.
pub open spec fn deref(v: Option<&Json>) -> Option<Json> {
    match v {
        Some(j) => Some(*j),
        None => None,
    }
}

pub fn real_value(v: Option<&Json>) -> (r: Option<RealParts>)
    ensures
        r == real_of(deref(v)),
{
    match v {
        Some(j) => match &j.kind {
            JsonKind::Number(n) => n.real_parts,
            _ => None,
        },
        None => None,
    }
}

pub fn str_value(v: Option<&Json>) -> (r: Option<String>)
    ensures
        r == str_of(deref(v)),
{
    match v {
        Some(j) => match &j.kind {
            JsonKind::Text(s) => Some(s.clone()),
            _ => None,
        },
        None => None,
    }
}

pub fn bool_value(v: Option<&Json>) -> (r: Option<bool>)
    ensures
        r == bool_of(deref(v)),
{
    match v {
        Some(j) => match &j.kind {
            JsonKind::Bool(b) => Some(*b),
            _ => None,
        },
        None => None,
    }
}

/// The `u64` that a value is.
pub open spec fn unsigned_of(v: Option<Json>) -> Option<u64> {
    match v {
        Some(j) => match j.kind {
            JsonKind::Number(n) => n.unsigned,
            _ => None,
        },
        None => None,
    }
}

pub fn unsigned_value(v: Option<&Json>) -> (r: Option<u64>)
    ensures
        r == unsigned_of(deref(v)),
{
    match v {
        Some(j) => match &j.kind {
            JsonKind::Number(n) => n.unsigned,
            _ => None,
        },
        None => None,
    }
}

/// The address that a value writes: a number that is not negative, or a text in
/// hex with `0x` in front or in decimal.
pub open spec fn addr_of(v: Json) -> Result<usize, ArgError> {
    match v.kind {
        JsonKind::Number(n) => match (n.unsigned, n.real_parts) {
            (Some(u), _) => Ok(u as usize),
            (None, Some(f)) => if f.negative {
                Err(ArgError::NegativeAddress)
            } else {
                Ok(f.to_usize)
            },
            (None, None) => Err(ArgError::BadNumericAddress),
        },
        JsonKind::Text(s) => match prefixed_uint(s@, usize::MAX as int) {
            Ok(a) => Ok(a as usize),
            Err(_) => Err(ArgError::BadAddressText(s)),
        },
        _ => Err(ArgError::NotAnAddress(v.printed)),
    }
}

pub fn as_addr(v: &Json) -> (r: Result<usize, ArgError>)
    ensures
        r == addr_of(*v),
{
    match &v.kind {
        JsonKind::Number(n) => match n.unsigned {
            Some(u) => Ok(u as usize),
            None => match n.real_parts {
                Some(f) => if f.negative {
                    Err(ArgError::NegativeAddress)
                } else {
                    Ok(f.to_usize)
                },
                None => Err(ArgError::BadNumericAddress),
            },
        },
        JsonKind::Text(s) => match parse_addr_str(s.as_str()) {
            Ok(a) => Ok(a),
            Err(_) => Err(ArgError::BadAddressText(s.clone())),
        },
        _ => Err(ArgError::NotAnAddress(v.printed.clone())),
    }
}

/// The text of a value: the text that it is, or else its printed form.
pub open spec fn text_of_value(v: Json) -> String {
    match v.kind {
        JsonKind::Text(s) => s,
        _ => v.printed,
    }
}

pub fn as_str(v: &Json) -> (s: String)
    ensures
        s == text_of_value(*v),
{
    match &v.kind {
        JsonKind::Text(s) => s.clone(),
        _ => v.printed.clone(),
    }
}

/// The floating-point number that a value is.
pub open spec fn number_of(v: Json) -> Result<RealParts, ArgError> {
    match real_of(Some(v)) {
        Some(f) => Ok(f),
        None => Err(ArgError::NotANumber(v.printed)),
    }
}

/// Reads a floating-point number.
pub fn as_real(v: &Json) -> (r: Result<RealParts, ArgError>)
    ensures
        r == number_of(*v),
{
    match real_value(Some(v)) {
        Some(f) => Ok(f),
        None => Err(ArgError::NotANumber(v.printed.clone())),
    }
}

/// The signed integer that a value writes.
pub open spec fn int_of(v: Json) -> Result<i64, ArgError> {
    match v.kind {
        JsonKind::Number(n) => match (n.signed, n.real_parts) {
            (Some(i), _) => Ok(i),
            (None, Some(f)) => Ok(f.to_i64),
            (None, None) => Err(ArgError::BadInteger),
        },
        JsonKind::Text(s) => match parse_int_spec(trim(s@), 10, i64::MIN as int, i64::MAX as int) {
            Ok(i) => Ok(i as i64),
            Err(_) => Err(ArgError::BadIntText(s)),
        },
        _ => Err(ArgError::NotAnInteger(v.printed)),
    }
}

pub fn as_i64(v: &Json) -> (r: Result<i64, ArgError>)
    ensures
        r == int_of(*v),
{
    match &v.kind {
        JsonKind::Number(n) => match n.signed {
            Some(i) => Ok(i),
            None => match n.real_parts {
                Some(f) => Ok(f.to_i64),
                None => Err(ArgError::BadInteger),
            },
        },
        JsonKind::Text(s) => {
            let c = chars_of(s.as_str());
            let t = trim_exec(c.as_slice());
            match parse_signed(t, 10, i64::MAX) {
                Ok(i) => Ok(i),
                Err(_) => Err(ArgError::BadIntText(s.clone())),
            }
        },
        _ => Err(ArgError::NotAnInteger(v.printed.clone())),
    }
}

/// The unsigned integer that a value writes.
pub open spec fn uint_of(v: Json) -> Result<u64, ArgError> {
    match v.kind {
        JsonKind::Number(n) => match (n.unsigned, n.real_parts) {
            (Some(i), _) => Ok(i),
            (None, Some(f)) => Ok(f.to_u64),
            (None, None) => Err(ArgError::BadUnsigned),
        },
        JsonKind::Text(s) => match parse_int_spec(trim(s@), 10, 0, u64::MAX as int) {
            Ok(i) => Ok(i as u64),
            Err(_) => Err(ArgError::BadUnsignedText(s)),
        },
        _ => Err(ArgError::NotUnsigned(v.printed)),
    }
}

pub fn as_u64_flex(v: &Json) -> (r: Result<u64, ArgError>)
    ensures
        r == uint_of(*v),
{
    match &v.kind {
        JsonKind::Number(n) => match n.unsigned {
            Some(i) => Ok(i),
            None => match n.real_parts {
                Some(f) => Ok(f.to_u64),
                None => Err(ArgError::BadUnsigned),
            },
        },
        JsonKind::Text(s) => {
            let c = chars_of(s.as_str());
            let t = trim_exec(c.as_slice());
            match parse_unsigned(t, 10, u64::MAX) {
                Ok(i) => Ok(i),
                Err(_) => Err(ArgError::BadUnsignedText(s.clone())),
            }
        },
        _ => Err(ArgError::NotUnsigned(v.printed.clone())),
    }
}

/// The argument number `i`, as an address.
pub open spec fn addr_at(args: Json, i: nat) -> Result<usize, ArgError> {
    match arg_at(args, i) {
        Ok(v) => addr_of(v),
        Err(e) => Err(e),
    }
}

/// The argument number `i`, as a size: a floating-point number cast.
pub open spec fn size_at(args: Json, i: nat) -> Result<usize, ArgError> {
    match arg_at(args, i) {
        Ok(v) => match number_of(v) {
            Ok(f) => Ok(f.to_usize),
            Err(e) => Err(e),
        },
        Err(e) => Err(e),
    }
}

/// The argument number `i`, as a text.
pub open spec fn text_at(args: Json, i: nat) -> Result<String, ArgError> {
    match arg_at(args, i) {
        Ok(v) => Ok(text_of_value(v)),
        Err(e) => Err(e),
    }
}

/// The argument number `i`, as an index.
pub open spec fn index_at(args: Json, i: nat) -> Result<usize, ArgError> {
    match arg_at(args, i) {
        Ok(v) => match uint_of(v) {
            Ok(u) => Ok(u as usize),
            Err(e) => Err(e),
        },
        Err(e) => Err(e),
    }
}

pub fn addr_arg(args: &Json, i: usize) -> (r: Result<usize, ArgError>)
    ensures
        r == addr_at(*args, i as nat),
{
    match arg(args, i) {
        Ok(v) => as_addr(v),
        Err(e) => Err(e),
    }
}

pub fn size_arg(args: &Json, i: usize) -> (r: Result<usize, ArgError>)
    ensures
        r == size_at(*args, i as nat),
{
    match arg(args, i) {
        Ok(v) => match as_real(v) {
            Ok(f) => Ok(f.to_usize),
            Err(e) => Err(e),
        },
        Err(e) => Err(e),
    }
}

pub fn text_arg(args: &Json, i: usize) -> (r: Result<String, ArgError>)
    ensures
        r == text_at(*args, i as nat),
{
    match arg(args, i) {
        Ok(v) => Ok(as_str(v)),
        Err(e) => Err(e),
    }
}

pub fn index_arg(args: &Json, i: usize) -> (r: Result<usize, ArgError>)
    ensures
        r == index_at(*args, i as nat),
{
    match arg(args, i) {
        Ok(v) => match as_u64_flex(v) {
            Ok(u) => Ok(u as usize),
            Err(e) => Err(e),
        },
        Err(e) => Err(e),
    }
}

/// The text of an optional value.
pub open spec fn opt_text(v: Option<Json>) -> Option<String> {
    match v {
        Some(j) => Some(text_of_value(j)),
        None => None,
    }
}

pub fn opt_text_arg(v: Option<&Json>) -> (r: Option<String>)
    ensures
        r == opt_text(deref(v)),
{
    match v {
        Some(j) => Some(as_str(j)),
        None => None,
    }
}

/// The sizes that a list of values writes; the first that is no number is the
/// error.
pub open spec fn sizes_of(s: Seq<Json>) -> Result<Seq<usize>, ArgError>
    decreases s.len(),
{
    if s.len() == 0 {
        Ok(Seq::empty())
    } else {
        match (sizes_of(s.drop_last()), number_of(s.last())) {
            (Err(e), _) => Err(e),
            (Ok(_), Err(e)) => Err(e),
            (Ok(p), Ok(f)) => Ok(p.push(f.to_usize)),
        }
    }
}

proof fn lemma_sizes_fail(s: Seq<Json>, n: int)
    requires
        0 <= n <= s.len(),
        sizes_of(s.subrange(0, n)) is Err,
    ensures
        sizes_of(s) == sizes_of(s.subrange(0, n)),
    decreases s.len() - n,
{
    if n < s.len() {
        assert(s.subrange(0, n + 1).drop_last() =~= s.subrange(0, n));
        lemma_sizes_fail(s, n + 1);
    } else {
        assert(s.subrange(0, n) =~= s);
    }
}

pub fn all_sizes(s: &Vec<Json>) -> (r: Result<Vec<usize>, ArgError>)
    ensures
        match r {
            Ok(v) => sizes_of(s@) == Ok::<Seq<usize>, ArgError>(v@),
            Err(e) => sizes_of(s@) == Err::<Seq<usize>, ArgError>(e),
        },
{
    let mut out: Vec<usize> = Vec::new();
    let mut i: usize = 0;
    while i < s.len()
        invariant
            i <= s@.len(),
            sizes_of(s@.subrange(0, i as int)) == Ok::<Seq<usize>, ArgError>(out@),
        decreases s@.len() - i,
    {
        assert(s@.subrange(0, i + 1).drop_last() =~= s@.subrange(0, i as int));
        match as_real(&s[i]) {
            Ok(f) => {
                out.push(f.to_usize);
            },
            Err(e) => {
                proof {
                    lemma_sizes_fail(s@, i + 1);
                }
                return Err(e);
            },
        }
        i += 1;
    }
    assert(s@.subrange(0, s@.len() as int) =~= s@);
    Ok(out)
}

/// The signed integers that a list of values writes.
pub open spec fn ints_of(s: Seq<Json>) -> Result<Seq<i64>, ArgError>
    decreases s.len(),
{
    if s.len() == 0 {
        Ok(Seq::empty())
    } else {
        match (ints_of(s.drop_last()), int_of(s.last())) {
            (Err(e), _) => Err(e),
            (Ok(_), Err(e)) => Err(e),
            (Ok(p), Ok(i)) => Ok(p.push(i)),
        }
    }
}

proof fn lemma_ints_fail(s: Seq<Json>, n: int)
    requires
        0 <= n <= s.len(),
        ints_of(s.subrange(0, n)) is Err,
    ensures
        ints_of(s) == ints_of(s.subrange(0, n)),
    decreases s.len() - n,
{
    if n < s.len() {
        assert(s.subrange(0, n + 1).drop_last() =~= s.subrange(0, n));
        lemma_ints_fail(s, n + 1);
    } else {
        assert(s.subrange(0, n) =~= s);
    }
}

pub fn all_ints(s: &Vec<Json>) -> (r: Result<Vec<i64>, ArgError>)
    ensures
        match r {
            Ok(v) => ints_of(s@) == Ok::<Seq<i64>, ArgError>(v@),
            Err(e) => ints_of(s@) == Err::<Seq<i64>, ArgError>(e),
        },
{
    let mut out: Vec<i64> = Vec::new();
    let mut i: usize = 0;
    while i < s.len()
        invariant
            i <= s@.len(),
            ints_of(s@.subrange(0, i as int)) == Ok::<Seq<i64>, ArgError>(out@),
        decreases s@.len() - i,
    {
        assert(s@.subrange(0, i + 1).drop_last() =~= s@.subrange(0, i as int));
        match as_i64(&s[i]) {
            Ok(v) => {
                out.push(v);
            },
            Err(e) => {
                proof {
                    lemma_ints_fail(s@, i + 1);
                }
                return Err(e);
            },
        }
        i += 1;
    }
    assert(s@.subrange(0, s@.len() as int) =~= s@);
    Ok(out)
}

/// The bytes that a list of values writes, each a floating-point number cast.
pub open spec fn cast_bytes_of(s: Seq<Json>) -> Result<Seq<u8>, ArgError>
    decreases s.len(),
{
    if s.len() == 0 {
        Ok(Seq::empty())
    } else {
        match (cast_bytes_of(s.drop_last()), number_of(s.last())) {
            (Err(e), _) => Err(e),
            (Ok(_), Err(e)) => Err(e),
            (Ok(p), Ok(f)) => Ok(p.push(f.to_u8)),
        }
    }
}

proof fn lemma_cast_fail(s: Seq<Json>, n: int)
    requires
        0 <= n <= s.len(),
        cast_bytes_of(s.subrange(0, n)) is Err,
    ensures
        cast_bytes_of(s) == cast_bytes_of(s.subrange(0, n)),
    decreases s.len() - n,
{
    if n < s.len() {
        assert(s.subrange(0, n + 1).drop_last() =~= s.subrange(0, n));
        lemma_cast_fail(s, n + 1);
    } else {
        assert(s.subrange(0, n) =~= s);
    }
}

pub fn all_cast_bytes(s: &Vec<Json>) -> (r: Result<Vec<u8>, ArgError>)
    ensures
        match r {
            Ok(v) => cast_bytes_of(s@) == Ok::<Seq<u8>, ArgError>(v@),
            Err(e) => cast_bytes_of(s@) == Err::<Seq<u8>, ArgError>(e),
        },
{
    let mut out: Vec<u8> = Vec::new();
    let mut i: usize = 0;
    while i < s.len()
        invariant
            i <= s@.len(),
            cast_bytes_of(s@.subrange(0, i as int)) == Ok::<Seq<u8>, ArgError>(out@),
        decreases s@.len() - i,
    {
        assert(s@.subrange(0, i + 1).drop_last() =~= s@.subrange(0, i as int));
        match as_real(&s[i]) {
            Ok(f) => {
                out.push(f.to_u8);
            },
            Err(e) => {
                proof {
                    lemma_cast_fail(s@, i + 1);
                }
                return Err(e);
            },
        }
        i += 1;
    }
    assert(s@.subrange(0, s@.len() as int) =~= s@);
    Ok(out)
}

/// The byte that a value writes: the low byte of a `u64`, 0 for anything else.
pub open spec fn low_byte(v: Json) -> u8 {
    match unsigned_of(Some(v)) {
        Some(u) => (u % 256) as u8,
        None => 0,
    }
}

/// The bytes that a list of values writes.
pub open spec fn low_bytes(s: Seq<Json>) -> Seq<u8> {
    Seq::new(s.len(), |i: int| low_byte(s[i]))
}

pub fn all_low_bytes(s: &Vec<Json>) -> (out: Vec<u8>)
    ensures
        out@ == low_bytes(s@),
{
    let mut out: Vec<u8> = Vec::new();
    let mut i: usize = 0;
    while i < s.len()
        invariant
            i <= s@.len(),
            out@ == low_bytes(s@).subrange(0, i as int),
        decreases s@.len() - i,
    {
        let b: u8 = match unsigned_value(Some(&s[i])) {
            Some(u) => (u % 256) as u8,
            None => 0,
        };
        out.push(b);
        i += 1;
        assert(out@ =~= low_bytes(s@).subrange(0, i as int));
    }
    assert(low_bytes(s@).subrange(0, s@.len() as int) =~= low_bytes(s@));
    out
}

/// An address means the same as a number and as its hex text.
pub proof fn address_text_means_its_number(n: Json, t: Json, s: String, u: usize)
    requires
        n.kind matches JsonKind::Number(x) && x.unsigned == Some(u as u64),
        t.kind == JsonKind::Text(s),
        s@ == crate::text::prefixed_hex(u as nat),
    ensures
        addr_of(n) == Ok::<usize, ArgError>(u),
        addr_of(t) == Ok::<usize, ArgError>(u),
{
    reveal_strlit("0x");
    let digits = crate::text::hex_lower(u as nat);
    assert(s@ =~= seq!['0', 'x'] + digits);
    crate::text::lemma_digits_are_digits(u as nat, 16, false);
    assert(crate::text::digit_value(digits[digits.len() - 1], 16) is Some);
    assert(s@.last() == digits.last());
    assert(trim(s@) == s@);
    assert(crate::text::skip(s@, 2) =~= digits);
    crate::text::lemma_padded_round_trip(u as nat, 0, 16, false, usize::MAX as int);
    assert(crate::text::zero_padded(digits, 0) =~= digits);
}

/// A whole number means the same as a number and as its decimal text.
pub proof fn integer_text_means_its_number(n: Json, t: Json, s: String, i: i64)
    requires
        n.kind matches JsonKind::Number(x) && x.signed == Some(i),
        t.kind == JsonKind::Text(s),
        s@ == crate::text::signed_decimal(i as int),
    ensures
        int_of(n) == Ok::<i64, ArgError>(i),
        int_of(t) == Ok::<i64, ArgError>(i),
{
    crate::typed_values::printed_number_parses_back(i as int, i64::MIN as int, i64::MAX as int);
    crate::text::lemma_printed_is_trimmed(i as int);
}

/// The member of a name is the value of the first pair of that name.
pub proof fn member_is_the_first_of_its_name(s: Seq<(String, Json)>, name: Seq<char>)
    ensures
        match member_in(s, name) {
            Some(v) => exists|i: int|
                {
                    &&& 0 <= i < s.len()
                    &&& (#[trigger] s[i]).0@ == name
                    &&& s[i].1 == v
                    &&& forall|j: int| 0 <= j < i ==> (#[trigger] s[j]).0@ != name
                },
            None => forall|j: int| 0 <= j < s.len() ==> (#[trigger] s[j]).0@ != name,
        },
    decreases s.len(),
{
    if s.len() > 0 {
        let rest = s.drop_last();
        member_is_the_first_of_its_name(rest, name);
        assert forall|j: int| 0 <= j < rest.len() implies (#[trigger] s[j]) == rest[j] by {}
        if let Some(v) = member_in(rest, name) {
            let i = choose|i: int|
                {
                    &&& 0 <= i < rest.len()
                    &&& (#[trigger] rest[i]).0@ == name
                    &&& rest[i].1 == v
                    &&& forall|j: int| 0 <= j < i ==> (#[trigger] rest[j]).0@ != name
                };
            assert(s[i].0@ == name);
        } else if s.last().0@ == name {
            assert(s[s.len() - 1].0@ == name);
        }
    }
}

/// A list of sizes has the sizes of its elements, in their order.
pub proof fn sizes_come_in_order(s: Seq<Json>, k: int)
    requires
        sizes_of(s) is Ok,
        0 <= k < s.len(),
    ensures
        sizes_of(s)->Ok_0.len() == s.len(),
        number_of(s[k]) matches Ok(f) && sizes_of(s)->Ok_0[k] == f.to_usize,
    decreases s.len(),
{
    lemma_sizes_len(s.drop_last());
    if k < s.len() - 1 {
        sizes_come_in_order(s.drop_last(), k);
    }
}

proof fn lemma_sizes_len(s: Seq<Json>)
    ensures
        sizes_of(s) matches Ok(p) ==> p.len() == s.len(),
    decreases s.len(),
{
    if s.len() > 0 {
        lemma_sizes_len(s.drop_last());
    }
}

} // verus!
