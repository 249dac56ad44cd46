//! Typed extraction: converting one path component, or the list of values a
//! query key carried, into a strongly typed value.

use crate::error::QueryError;
use crate::numparse::{
    dec_digits, digits_val, int_dec, int_text_ok, int_text_val, is_digit, lemma_dec_digits_val,
    parse_int_text, u128_to_dec,
};
use vstd::prelude::*;
use vstd::string::{StrSliceExecFns, StringExecFns};

verus! {

/// A JSON-decoded request body, as a body-bound field holds it.
#[derive(Debug, Clone, Copy, PartialEq, Eq, PartialOrd, Ord, Hash, Default)]
pub struct JsonBody<T>(pub T);

/// Conversion of a single path component into a typed value.
///
/// `path_ok` says exactly which component texts convert, and `path_val`
/// relates a component text to the value it converts to.
pub trait FromPath: Sized {
    spec fn path_ok(s: Seq<char>) -> bool;

    spec fn path_val(s: Seq<char>, v: Self) -> bool;

    fn from_path(path_component: &str) -> (r: Result<Self, ()>)
        ensures
            r is Ok <==> Self::path_ok(path_component@),
            r matches Ok(v) ==> Self::path_val(path_component@, v),
    ;

    /// Whether the component would convert, without converting it.
    fn matches(path_component: &str) -> (r: bool)
        ensures
            r == Self::path_ok(path_component@),
    {
        Self::from_path(path_component).is_ok()
    }
}

impl FromPath for String {
    open spec fn path_ok(s: Seq<char>) -> bool {
        true
    }

    open spec fn path_val(s: Seq<char>, v: String) -> bool {
        v@ == s
    }

    fn from_path(path_component: &str) -> (r: Result<Self, ()>) {
        Ok(path_component.to_owned())
    }

    fn matches(path_component: &str) -> (r: bool) {
        true
    }
}

/// Whether `s` is decimal text for an unsigned value no greater than `max`.
pub open spec fn uint_ok(s: Seq<char>, max: int) -> bool {
    int_text_ok(s, false) && int_text_val(s) <= max
}

/// Whether `s` is decimal text for a signed value within `min ..= max`.
pub open spec fn sint_ok(s: Seq<char>, min: int, max: int) -> bool {
    int_text_ok(s, true) && min <= int_text_val(s) <= max
}

/// Reads unsigned decimal text worth at most `max`.
fn parse_unsigned(s: &str, max: u128) -> (r: Result<u128, ()>)
    ensures
        r is Ok <==> uint_ok(s@, max as int),
        r matches Ok(v) ==> v as int == int_text_val(s@),
{
    match parse_int_text(s, false) {
        Some((neg, mag)) => {
            if !neg && mag <= max {
                Ok(mag)
            } else {
                Err(())
            }
        },
        None => Err(()),
    }
}

/// Reads signed decimal text within `min ..= max`.
fn parse_signed(s: &str, min: i128, max: i128) -> (r: Result<i128, ()>)
    requires
        min < 0,
        max > 0,
    ensures
        r is Ok <==> sint_ok(s@, min as int, max as int),
        r matches Ok(v) ==> v as int == int_text_val(s@),
{
    let min_mag: u128 = ((-(min + 1)) as u128) + 1;
    match parse_int_text(s, true) {
        Some((neg, mag)) => {
            if neg {
                if mag <= min_mag {
                    if mag == 0 {
                        Ok(0)
                    } else {
                        Ok(-((mag - 1) as i128) - 1)
                    }
                } else {
                    Err(())
                }
            } else {
                if mag <= max as u128 {
                    Ok(mag as i128)
                } else {
                    Err(())
                }
            }
        },
        None => Err(()),
    }
}

impl FromPath for u8 {
    open spec fn path_ok(s: Seq<char>) -> bool {
        uint_ok(s, u8::MAX as int)
    }

    open spec fn path_val(s: Seq<char>, v: u8) -> bool {
        v as int == int_text_val(s)
    }

    fn from_path(path_component: &str) -> (r: Result<Self, ()>) {
        match parse_unsigned(path_component, u8::MAX as u128) {
            Ok(v) => {
                proof {
                    assert(<u8 as FromPath>::path_val(path_component@, (v as u8)));
                }
                Ok(v as u8)
            },
            Err(()) => Err(()),
        }
    }
}

impl FromPath for u16 {
    open spec fn path_ok(s: Seq<char>) -> bool {
        uint_ok(s, u16::MAX as int)
    }

    open spec fn path_val(s: Seq<char>, v: u16) -> bool {
        v as int == int_text_val(s)
    }

    fn from_path(path_component: &str) -> (r: Result<Self, ()>) {
        match parse_unsigned(path_component, u16::MAX as u128) {
            Ok(v) => {
                proof {
                    assert(<u16 as FromPath>::path_val(path_component@, (v as u16)));
                }
                Ok(v as u16)
            },
            Err(()) => Err(()),
        }
    }
}

impl FromPath for u32 {
    open spec fn path_ok(s: Seq<char>) -> bool {
        uint_ok(s, u32::MAX as int)
    }

    open spec fn path_val(s: Seq<char>, v: u32) -> bool {
        v as int == int_text_val(s)
    }

    fn from_path(path_component: &str) -> (r: Result<Self, ()>) {
        match parse_unsigned(path_component, u32::MAX as u128) {
            Ok(v) => {
                proof {
                    assert(<u32 as FromPath>::path_val(path_component@, (v as u32)));
                }
                Ok(v as u32)
            },
            Err(()) => Err(()),
        }
    }
}

impl FromPath for u64 {
    open spec fn path_ok(s: Seq<char>) -> bool {
        uint_ok(s, u64::MAX as int)
    }

    open spec fn path_val(s: Seq<char>, v: u64) -> bool {
        v as int == int_text_val(s)
    }

    fn from_path(path_component: &str) -> (r: Result<Self, ()>) {
        match parse_unsigned(path_component, u64::MAX as u128) {
            Ok(v) => {
                proof {
                    assert(<u64 as FromPath>::path_val(path_component@, (v as u64)));
                }
                Ok(v as u64)
            },
            Err(()) => Err(()),
        }
    }
}

impl FromPath for u128 {
    open spec fn path_ok(s: Seq<char>) -> bool {
        uint_ok(s, u128::MAX as int)
    }

    open spec fn path_val(s: Seq<char>, v: u128) -> bool {
        v as int == int_text_val(s)
    }

    fn from_path(path_component: &str) -> (r: Result<Self, ()>) {
        let r = parse_unsigned(path_component, u128::MAX);
        proof {
            if r is Ok {
                assert(<u128 as FromPath>::path_val(path_component@, r->Ok_0));
            }
        }
        r
    }
}

impl FromPath for i8 {
    open spec fn path_ok(s: Seq<char>) -> bool {
        sint_ok(s, i8::MIN as int, i8::MAX as int)
    }

    open spec fn path_val(s: Seq<char>, v: i8) -> bool {
        v as int == int_text_val(s)
    }

    fn from_path(path_component: &str) -> (r: Result<Self, ()>) {
        match parse_signed(path_component, i8::MIN as i128, i8::MAX as i128) {
            Ok(v) => {
                proof {
                    assert(<i8 as FromPath>::path_val(path_component@, (v as i8)));
                }
                Ok(v as i8)
            },
            Err(()) => Err(()),
        }
    }
}

impl FromPath for i16 {
    open spec fn path_ok(s: Seq<char>) -> bool {
        sint_ok(s, i16::MIN as int, i16::MAX as int)
    }

    open spec fn path_val(s: Seq<char>, v: i16) -> bool {
        v as int == int_text_val(s)
    }

    fn from_path(path_component: &str) -> (r: Result<Self, ()>) {
        match parse_signed(path_component, i16::MIN as i128, i16::MAX as i128) {
            Ok(v) => {
                proof {
                    assert(<i16 as FromPath>::path_val(path_component@, (v as i16)));
                }
                Ok(v as i16)
            },
            Err(()) => Err(()),
        }
    }
}

impl FromPath for i32 {
    open spec fn path_ok(s: Seq<char>) -> bool {
        sint_ok(s, i32::MIN as int, i32::MAX as int)
    }

    open spec fn path_val(s: Seq<char>, v: i32) -> bool {
        v as int == int_text_val(s)
    }

    fn from_path(path_component: &str) -> (r: Result<Self, ()>) {
        match parse_signed(path_component, i32::MIN as i128, i32::MAX as i128) {
            Ok(v) => {
                proof {
                    assert(<i32 as FromPath>::path_val(path_component@, (v as i32)));
                }
                Ok(v as i32)
            },
            Err(()) => Err(()),
        }
    }
}

impl FromPath for i64 {
    open spec fn path_ok(s: Seq<char>) -> bool {
        sint_ok(s, i64::MIN as int, i64::MAX as int)
    }

    open spec fn path_val(s: Seq<char>, v: i64) -> bool {
        v as int == int_text_val(s)
    }

    fn from_path(path_component: &str) -> (r: Result<Self, ()>) {
        match parse_signed(path_component, i64::MIN as i128, i64::MAX as i128) {
            Ok(v) => {
                proof {
                    assert(<i64 as FromPath>::path_val(path_component@, (v as i64)));
                }
                Ok(v as i64)
            },
            Err(()) => Err(()),
        }
    }
}

impl FromPath for i128 {
    open spec fn path_ok(s: Seq<char>) -> bool {
        sint_ok(s, i128::MIN as int, i128::MAX as int)
    }

    open spec fn path_val(s: Seq<char>, v: i128) -> bool {
        v as int == int_text_val(s)
    }

    fn from_path(path_component: &str) -> (r: Result<Self, ()>) {
        let r = parse_signed(path_component, i128::MIN, i128::MAX);
        proof {
            if r is Ok {
                assert(<i128 as FromPath>::path_val(path_component@, r->Ok_0));
            }
        }
        r
    }
}

/// Renders an unsigned value as the decimal text its `FromPath` impl reads.
pub fn u64_to_path(n: u64) -> (s: String)
    ensures
        s@ == dec_digits(n as nat),
{
    u128_to_dec(n as u128)
}

/// Renders a signed value as the decimal text its `FromPath` impl reads.
pub fn i64_to_path(n: i64) -> (s: String)
    ensures
        s@ == int_dec(n as int),
{
    if n >= 0 {
        u128_to_dec(n as u128)
    } else {
        let mag = (-((n + 1) as i128) + 1) as u128;
        let mut s = String::from_str("-");
        let digits = u128_to_dec(mag);
        s.append(digits.as_str());
        proof {
            reveal_strlit("-");
            assert(s@ =~= int_dec(n as int));
        }
        s
    }
}

/// Conversion of the ordered list of values one query key carried into a
/// typed value.
///
/// `query_ok` says exactly which value lists convert, `query_val` relates a
/// value list to the value it converts to, and `query_err` names the error
/// reported for a list that does not convert.
pub trait FromQuery: Sized {
    spec fn query_ok(vs: Seq<Seq<char>>) -> bool;

    spec fn query_err(vs: Seq<Seq<char>>) -> QueryError;

    spec fn query_val(vs: Seq<Seq<char>>, v: Self) -> bool;

    fn from_query(values: &[String]) -> (r: Result<Self, QueryError>)
        ensures
            r is Ok <==> Self::query_ok(values.deep_view()),
            r matches Ok(v) ==> Self::query_val(values.deep_view(), v),
            r matches Err(e) ==> e == Self::query_err(values.deep_view()),
    ;
}

/// The error reported for a single-valued parameter that did not receive
/// exactly one value.
pub open spec fn one_value_err(vs: Seq<Seq<char>>, parse_err: QueryError) -> QueryError {
    if vs.len() == 0 {
        QueryError::NoQuery
    } else if vs.len() > 1 {
        QueryError::MultipleQuery
    } else {
        parse_err
    }
}

/// The single value of a single-valued parameter: fails with `NoQuery` on an
/// empty list and `MultipleQuery` on more than one value.
pub fn require_one(values: &[String]) -> (r: Result<&str, QueryError>)
    ensures
        values.deep_view().len() == 1 ==> (r matches Ok(s) && s@ == values.deep_view()[0]),
        values.deep_view().len() == 0 ==> r == Err::<&str, QueryError>(QueryError::NoQuery),
        values.deep_view().len() > 1 ==> r == Err::<&str, QueryError>(QueryError::MultipleQuery),
{
    if values.len() > 1 {
        Err(QueryError::MultipleQuery)
    } else if values.len() < 1 {
        Err(QueryError::NoQuery)
    } else {
        Ok(values[0].as_str())
    }
}

impl FromQuery for String {
    open spec fn query_ok(vs: Seq<Seq<char>>) -> bool {
        vs.len() == 1
    }

    open spec fn query_err(vs: Seq<Seq<char>>) -> QueryError {
        one_value_err(vs, QueryError::AnyError)
    }

    open spec fn query_val(vs: Seq<Seq<char>>, v: String) -> bool {
        v@ == vs[0]
    }

    fn from_query(values: &[String]) -> (r: Result<Self, QueryError>) {
        match require_one(values) {
            Ok(s) => Ok(s.to_owned()),
            Err(e) => Err(e),
        }
    }
}

impl<T: FromQuery> FromQuery for Option<T> {
    /// An absent parameter always converts, to `None`.
    open spec fn query_ok(vs: Seq<Seq<char>>) -> bool {
        vs.len() == 0 || T::query_ok(vs)
    }

    open spec fn query_err(vs: Seq<Seq<char>>) -> QueryError {
        T::query_err(vs)
    }

    open spec fn query_val(vs: Seq<Seq<char>>, v: Option<T>) -> bool {
        match v {
            None => vs.len() == 0,
            Some(x) => vs.len() > 0 && T::query_val(vs, x),
        }
    }

    fn from_query(values: &[String]) -> (r: Result<Self, QueryError>) {
        if values.len() == 0 {
            Ok(None)
        } else {
            match T::from_query(values) {
                Ok(v) => Ok(Some(v)),
                Err(e) => Err(e),
            }
        }
    }
}

/// The error of the first value list entry that does not convert on its own.
pub open spec fn vec_first_err<T: FromQuery>(vs: Seq<Seq<char>>) -> QueryError
    decreases vs.len(),
{
    if vs.len() == 0 {
        QueryError::NoQuery
    } else if !T::query_ok(seq![vs[0]]) {
        T::query_err(seq![vs[0]])
    } else {
        vec_first_err::<T>(vs.drop_first())
    }
}

proof fn lemma_vec_first_err<T: FromQuery>(vs: Seq<Seq<char>>, i: int)
    requires
        0 <= i < vs.len(),
        forall|j: int| 0 <= j < i ==> T::query_ok(seq![#[trigger] vs[j]]),
        !T::query_ok(seq![vs[i]]),
    ensures
        vec_first_err::<T>(vs) == T::query_err(seq![vs[i]]),
    decreases i,
{
    if i == 0 {
    } else {
        assert(T::query_ok(seq![vs[0]]));
        lemma_vec_first_err::<T>(vs.drop_first(), i - 1);
        assert forall|j: int| 0 <= j < i - 1 implies T::query_ok(
            seq![#[trigger] vs.drop_first()[j]],
        ) by {
            assert(vs.drop_first()[j] == vs[j + 1]);
        }
        assert(vs.drop_first()[i - 1] == vs[i]);
    }
}

impl<T: FromQuery> FromQuery for Vec<T> {
    /// Each value converts independently as a one-value list.
    open spec fn query_ok(vs: Seq<Seq<char>>) -> bool {
        forall|i: int| 0 <= i < vs.len() ==> T::query_ok(seq![#[trigger] vs[i]])
    }

    open spec fn query_err(vs: Seq<Seq<char>>) -> QueryError {
        vec_first_err::<T>(vs)
    }

    open spec fn query_val(vs: Seq<Seq<char>>, v: Vec<T>) -> bool {
        v@.len() == vs.len() && forall|i: int|
            0 <= i < vs.len() ==> T::query_val(seq![#[trigger] vs[i]], v@[i])
    }

    fn from_query(values: &[String]) -> (r: Result<Self, QueryError>) {
        let ghost vs = values.deep_view();
        let mut out: Vec<T> = Vec::new();
        let mut i: usize = 0;
        while i < values.len()
            invariant
                i <= values@.len(),
                vs == values.deep_view(),
                vs.len() == values@.len(),
                out@.len() == i,
                forall|j: int| 0 <= j < i ==> T::query_ok(seq![#[trigger] vs[j]]),
                forall|j: int| 0 <= j < i ==> T::query_val(seq![#[trigger] vs[j]], out@[j]),
            decreases values@.len() - i,
        {
            let one: Vec<String> = vec![values[i].clone()];
            proof {
                assert(one.deep_view() =~= seq![vs[i as int]]);
            }
            match T::from_query(one.as_slice()) {
                Ok(v) => {
                    out.push(v);
                },
                Err(e) => {
                    proof {
                        lemma_vec_first_err::<T>(vs, i as int);
                    }
                    return Err(e);
                },
            }
            i = i + 1;
        }
        Ok(out)
    }
}

impl FromQuery for u8 {
    open spec fn query_ok(vs: Seq<Seq<char>>) -> bool {
        vs.len() == 1 && uint_ok(vs[0], u8::MAX as int)
    }

    open spec fn query_err(vs: Seq<Seq<char>>) -> QueryError {
        one_value_err(vs, QueryError::ParseIntError)
    }

    open spec fn query_val(vs: Seq<Seq<char>>, v: u8) -> bool {
        v as int == int_text_val(vs[0])
    }

    fn from_query(values: &[String]) -> (r: Result<Self, QueryError>) {
        match require_one(values) {
            Ok(s) => match <u8 as FromPath>::from_path(s) {
                Ok(v) => Ok(v),
                Err(()) => Err(QueryError::ParseIntError),
            },
            Err(e) => Err(e),
        }
    }
}

impl FromQuery for u16 {
    open spec fn query_ok(vs: Seq<Seq<char>>) -> bool {
        vs.len() == 1 && uint_ok(vs[0], u16::MAX as int)
    }

    open spec fn query_err(vs: Seq<Seq<char>>) -> QueryError {
        one_value_err(vs, QueryError::ParseIntError)
    }

    open spec fn query_val(vs: Seq<Seq<char>>, v: u16) -> bool {
        v as int == int_text_val(vs[0])
    }

    fn from_query(values: &[String]) -> (r: Result<Self, QueryError>) {
        match require_one(values) {
            Ok(s) => match <u16 as FromPath>::from_path(s) {
                Ok(v) => Ok(v),
                Err(()) => Err(QueryError::ParseIntError),
            },
            Err(e) => Err(e),
        }
    }
}

impl FromQuery for u32 {
    open spec fn query_ok(vs: Seq<Seq<char>>) -> bool {
        vs.len() == 1 && uint_ok(vs[0], u32::MAX as int)
    }

    open spec fn query_err(vs: Seq<Seq<char>>) -> QueryError {
        one_value_err(vs, QueryError::ParseIntError)
    }

    open spec fn query_val(vs: Seq<Seq<char>>, v: u32) -> bool {
        v as int == int_text_val(vs[0])
    }

    fn from_query(values: &[String]) -> (r: Result<Self, QueryError>) {
        match require_one(values) {
            Ok(s) => match <u32 as FromPath>::from_path(s) {
                Ok(v) => Ok(v),
                Err(()) => Err(QueryError::ParseIntError),
            },
            Err(e) => Err(e),
        }
    }
}

impl FromQuery for u64 {
    open spec fn query_ok(vs: Seq<Seq<char>>) -> bool {
        vs.len() == 1 && uint_ok(vs[0], u64::MAX as int)
    }

    open spec fn query_err(vs: Seq<Seq<char>>) -> QueryError {
        one_value_err(vs, QueryError::ParseIntError)
    }

    open spec fn query_val(vs: Seq<Seq<char>>, v: u64) -> bool {
        v as int == int_text_val(vs[0])
    }

    fn from_query(values: &[String]) -> (r: Result<Self, QueryError>) {
        match require_one(values) {
            Ok(s) => match <u64 as FromPath>::from_path(s) {
                Ok(v) => Ok(v),
                Err(()) => Err(QueryError::ParseIntError),
            },
            Err(e) => Err(e),
        }
    }
}

impl FromQuery for u128 {
    open spec fn query_ok(vs: Seq<Seq<char>>) -> bool {
        vs.len() == 1 && uint_ok(vs[0], u128::MAX as int)
    }

    open spec fn query_err(vs: Seq<Seq<char>>) -> QueryError {
        one_value_err(vs, QueryError::ParseIntError)
    }

    open spec fn query_val(vs: Seq<Seq<char>>, v: u128) -> bool {
        v as int == int_text_val(vs[0])
    }

    fn from_query(values: &[String]) -> (r: Result<Self, QueryError>) {
        match require_one(values) {
            Ok(s) => match <u128 as FromPath>::from_path(s) {
                Ok(v) => Ok(v),
                Err(()) => Err(QueryError::ParseIntError),
            },
            Err(e) => Err(e),
        }
    }
}

impl FromQuery for i8 {
    open spec fn query_ok(vs: Seq<Seq<char>>) -> bool {
        vs.len() == 1 && sint_ok(vs[0], i8::MIN as int, i8::MAX as int)
    }

    open spec fn query_err(vs: Seq<Seq<char>>) -> QueryError {
        one_value_err(vs, QueryError::ParseIntError)
    }

    open spec fn query_val(vs: Seq<Seq<char>>, v: i8) -> bool {
        v as int == int_text_val(vs[0])
    }

    fn from_query(values: &[String]) -> (r: Result<Self, QueryError>) {
        match require_one(values) {
            Ok(s) => match <i8 as FromPath>::from_path(s) {
                Ok(v) => Ok(v),
                Err(()) => Err(QueryError::ParseIntError),
            },
            Err(e) => Err(e),
        }
    }
}

impl FromQuery for i16 {
    open spec fn query_ok(vs: Seq<Seq<char>>) -> bool {
        vs.len() == 1 && sint_ok(vs[0], i16::MIN as int, i16::MAX as int)
    }

    open spec fn query_err(vs: Seq<Seq<char>>) -> QueryError {
        one_value_err(vs, QueryError::ParseIntError)
    }

    open spec fn query_val(vs: Seq<Seq<char>>, v: i16) -> bool {
        v as int == int_text_val(vs[0])
    }

    fn from_query(values: &[String]) -> (r: Result<Self, QueryError>) {
        match require_one(values) {
            Ok(s) => match <i16 as FromPath>::from_path(s) {
                Ok(v) => Ok(v),
                Err(()) => Err(QueryError::ParseIntError),
            },
            Err(e) => Err(e),
        }
    }
}

impl FromQuery for i32 {
    open spec fn query_ok(vs: Seq<Seq<char>>) -> bool {
        vs.len() == 1 && sint_ok(vs[0], i32::MIN as int, i32::MAX as int)
    }

    open spec fn query_err(vs: Seq<Seq<char>>) -> QueryError {
        one_value_err(vs, QueryError::ParseIntError)
    }

    open spec fn query_val(vs: Seq<Seq<char>>, v: i32) -> bool {
        v as int == int_text_val(vs[0])
    }

    fn from_query(values: &[String]) -> (r: Result<Self, QueryError>) {
        match require_one(values) {
            Ok(s) => match <i32 as FromPath>::from_path(s) {
                Ok(v) => Ok(v),
                Err(()) => Err(QueryError::ParseIntError),
            },
            Err(e) => Err(e),
        }
    }
}

impl FromQuery for i64 {
    open spec fn query_ok(vs: Seq<Seq<char>>) -> bool {
        vs.len() == 1 && sint_ok(vs[0], i64::MIN as int, i64::MAX as int)
    }

    open spec fn query_err(vs: Seq<Seq<char>>) -> QueryError {
        one_value_err(vs, QueryError::ParseIntError)
    }

    open spec fn query_val(vs: Seq<Seq<char>>, v: i64) -> bool {
        v as int == int_text_val(vs[0])
    }

    fn from_query(values: &[String]) -> (r: Result<Self, QueryError>) {
        match require_one(values) {
            Ok(s) => match <i64 as FromPath>::from_path(s) {
                Ok(v) => Ok(v),
                Err(()) => Err(QueryError::ParseIntError),
            },
            Err(e) => Err(e),
        }
    }
}

impl FromQuery for i128 {
    open spec fn query_ok(vs: Seq<Seq<char>>) -> bool {
        vs.len() == 1 && sint_ok(vs[0], i128::MIN as int, i128::MAX as int)
    }

    open spec fn query_err(vs: Seq<Seq<char>>) -> QueryError {
        one_value_err(vs, QueryError::ParseIntError)
    }

    open spec fn query_val(vs: Seq<Seq<char>>, v: i128) -> bool {
        v as int == int_text_val(vs[0])
    }

    fn from_query(values: &[String]) -> (r: Result<Self, QueryError>) {
        match require_one(values) {
            Ok(s) => match <i128 as FromPath>::from_path(s) {
                Ok(v) => Ok(v),
                Err(()) => Err(QueryError::ParseIntError),
            },
            Err(e) => Err(e),
        }
    }
}

/// An absent optional parameter converts to `None`, whatever the element
/// type.
pub proof fn lemma_option_from_query_empty<T: FromQuery>()
    ensures
        <Option<T> as FromQuery>::query_ok(Seq::<Seq<char>>::empty()),
        forall|v: Option<T>|
            #[trigger] <Option<T> as FromQuery>::query_val(Seq::<Seq<char>>::empty(), v) ==> v
                is None,
{
}

/// The canonical decimal rendering never carries a sign and reads back as
/// the rendered value.
proof fn lemma_dec_digits_int_text(n: nat)
    ensures
        int_text_ok(dec_digits(n), false),
        int_text_ok(dec_digits(n), true),
        int_text_val(dec_digits(n)) == n,
{
    lemma_dec_digits_val(n);
    let s = dec_digits(n);
    assert(is_digit(s[0]));
    assert(s[0] != '+' && s[0] != '-');
}

/// Round trip: any unsigned value within an integer type's range, rendered
/// in decimal, is accepted by that type's conversion and reads back as the
/// same value.
pub proof fn lemma_uint_path_roundtrip(n: nat, max: int)
    requires
        n <= max,
    ensures
        uint_ok(dec_digits(n), max),
        int_text_val(dec_digits(n)) == n,
{
    lemma_dec_digits_int_text(n);
}

/// Round trip: any signed value within an integer type's range, rendered in
/// decimal with its sign, is accepted by that type's conversion and reads
/// back as the same value.
pub proof fn lemma_sint_path_roundtrip(i: int, min: int, max: int)
    requires
        min <= i <= max,
        min <= 0 <= max,
    ensures
        sint_ok(int_dec(i), min, max),
        int_text_val(int_dec(i)) == i,
{
    if i >= 0 {
        lemma_dec_digits_int_text(i as nat);
    } else {
        let mag = (-i) as nat;
        lemma_dec_digits_val(mag);
        let s = int_dec(i);
        let d = dec_digits(mag);
        assert(s == seq!['-'] + d);
        assert(s[0] == '-');
        assert(s.drop_first() =~= d);
        assert(int_text_ok(s, true));
        assert(int_text_val(s) == -(digits_val(d) as int)) by {
            assert(s.len() > 0 && s[0] == '-');
        }
    }
}

/// Round trip: every `u64` value, rendered in decimal, converts back from
/// the path to the same value.
pub proof fn lemma_u64_path_roundtrip(n: u64)
    ensures
        <u64 as FromPath>::path_ok(dec_digits(n as nat)),
        forall|v: u64| <u64 as FromPath>::path_val(dec_digits(n as nat), v) ==> v == n,
{
    lemma_uint_path_roundtrip(n as nat, u64::MAX as int);
}

/// Round trip: every `i64` value, rendered in decimal with its sign,
/// converts back from the path to the same value.
pub proof fn lemma_i64_path_roundtrip(n: i64)
    ensures
        <i64 as FromPath>::path_ok(int_dec(n as int)),
        forall|v: i64| <i64 as FromPath>::path_val(int_dec(n as int), v) ==> v == n,
{
    lemma_sint_path_roundtrip(n as int, i64::MIN as int, i64::MAX as int);
}

} // verus!
