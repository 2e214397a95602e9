//! A plain model of JSON values, and the typed reading of tool parameters.
//!
//! Tool parameters and results are JSON objects. [`Json`] holds what the tools read and
//! write; numbers keep only what the tools look at (a non-negative integer, a negative
//! integer, or some other number).
use vstd::prelude::*;

use crate::text::chars_of;
use crate::tool::ToolError;

verus! {

/// A JSON number as the tools see it.
pub enum JsonNumber {
    /// An integer `>= 0`.
    PosInt(u64),
    /// An integer `< 0`.
    NegInt(i64),
    /// Any number that is not an integer in `i64`/`u64` range.
    Float,
}

/// A JSON value. Object members keep their order; a key occurs at most once.
pub enum Json {
    Null,
    Bool(bool),
    Number(JsonNumber),
    Str(String),
    Array(Vec<Json>),
    Object(Vec<(String, Json)>),
}

/// Value of the first member named `key`.
pub open spec fn lookup(members: Seq<(String, Json)>, key: Seq<char>) -> Option<Json>
    decreases members.len(),
{
    if members.len() == 0 {
        None
    } else if members[0].0@ == key {
        Some(members[0].1)
    } else {
        lookup(members.drop_first(), key)
    }
}

/// `value.get(key)`: the member named `key` of an object, `None` for anything else.
pub open spec fn json_get(value: Json, key: Seq<char>) -> Option<Json> {
    match value {
        Json::Object(members) => lookup(members@, key),
        _ => None,
    }
}

/// `value.as_u64()`.
pub open spec fn as_u64_spec(v: Json) -> Option<u64> {
    match v {
        Json::Number(JsonNumber::PosInt(n)) => Some(n),
        _ => None,
    }
}

/// `value.as_i64()`.
pub open spec fn as_i64_spec(v: Json) -> Option<int> {
    match v {
        Json::Number(JsonNumber::PosInt(n)) => if n <= i64::MAX {
            Some(n as int)
        } else {
            None
        },
        Json::Number(JsonNumber::NegInt(n)) => Some(n as int),
        _ => None,
    }
}

/// Whether two string slices hold the same characters.
pub fn str_eq(a: &str, b: &str) -> (r: bool)
    ensures
        r == (a@ == b@),
{
    let x = chars_of(a);
    let y = chars_of(b);
    if x.len() != y.len() {
        return false;
    }
    let mut i: usize = 0;
    while i < x.len()
        invariant
            x@ == a@,
            y@ == b@,
            x@.len() == y@.len(),
            i <= x@.len(),
            forall|j: int| 0 <= j < i ==> x@[j] == y@[j],
        decreases x@.len() - i,
    {
        if x[i] != y[i] {
            assert(x@[i as int] != y@[i as int]);
            assert(x@ != y@);
            assert(a@ != b@);
            return false;
        }
        i = i + 1;
    }
    assert(x@ =~= y@);
    true
}

/// Concatenate three string slices.
pub fn concat3(a: &str, b: &str, c: &str) -> (r: String)
    ensures
        r@ == a@ + b@ + c@,
{
    let mut r = a.to_string();
    proof {
        vstd::string::to_string_from_display_ensures_for_str(a, r);
    }
    r.append(b);
    r.append(c);
    r
}

/// Concatenate four string slices.
pub fn concat4(a: &str, b: &str, c: &str, d: &str) -> (r: String)
    ensures
        r@ == a@ + b@ + c@ + d@,
{
    let mut r = concat3(a, b, c);
    r.append(d);
    r
}

/// An owned copy of a string slice.
pub fn owned(s: &str) -> (r: String)
    ensures
        r@ == s@,
{
    let r = s.to_string();
    proof {
        vstd::string::to_string_from_display_ensures_for_str(s, r);
    }
    r
}

impl Json {
    /// `self.get(key)`.
    pub fn get(&self, key: &str) -> (r: Option<&Json>)
        ensures
            match r {
                Some(v) => json_get(*self, key@) == Some(*v),
                None => json_get(*self, key@) is None,
            },
    {
        match self {
            Json::Object(members) => {
                let mut i: usize = 0;
                assert(members@.skip(0) == members@);
                while i < members.len()
                    invariant
                        json_get(*self, key@) == lookup(members@, key@),
                        i <= members@.len(),
                        lookup(members@, key@) == lookup(members@.skip(i as int), key@),
                    decreases members@.len() - i,
                {
                    assert(members@.skip(i as int).drop_first() == members@.skip(i + 1));
                    assert(members@.skip(i as int)[0] == members@[i as int]);
                    if str_eq(members[i].0.as_str(), key) {
                        assert(members@[i as int].0@ == key@);
                        assert(lookup(members@.skip(i as int), key@) == Some(members@[i as int].1));
                        return Some(&members[i].1);
                    }
                    i = i + 1;
                }
                None
            },
            _ => None,
        }
    }

    /// `self.as_str()`.
    pub fn as_str(&self) -> (r: Option<&String>)
        ensures
            match r {
                Some(s) => *self == Json::Str(*s),
                None => !(*self is Str),
            },
    {
        match self {
            Json::Str(s) => Some(s),
            _ => None,
        }
    }

    /// `self.as_bool()`.
    pub fn as_bool(&self) -> (r: Option<bool>)
        ensures
            match r {
                Some(b) => *self == Json::Bool(b),
                None => !(*self is Bool),
            },
    {
        match self {
            Json::Bool(b) => Some(*b),
            _ => None,
        }
    }

    /// `self.as_u64()`.
    pub fn as_u64(&self) -> (r: Option<u64>)
        ensures
            r == as_u64_spec(*self),
    {
        match self {
            Json::Number(JsonNumber::PosInt(n)) => Some(*n),
            _ => None,
        }
    }

    /// `self.as_i64()`.
    pub fn as_i64(&self) -> (r: Option<i64>)
        ensures
            match r {
                Some(n) => as_i64_spec(*self) == Some(n as int),
                None => as_i64_spec(*self) is None,
            },
    {
        match self {
            Json::Number(JsonNumber::PosInt(n)) => if *n <= 0x7fff_ffff_ffff_ffffu64 {
                Some(*n as i64)
            } else {
                None
            },
            Json::Number(JsonNumber::NegInt(n)) => Some(*n),
            _ => None,
        }
    }

    /// `self.is_null()`.
    pub fn is_null(&self) -> (r: bool)
        ensures
            r == (*self is Null),
    {
        match self {
            Json::Null => true,
            _ => false,
        }
    }
}

/// The error for a missing or mistyped required string parameter.
pub open spec fn missing_param_error(key: Seq<char>) -> (Seq<char>, Seq<char>) {
    ("INVALID_PATH"@, "missing or invalid `"@ + key + "`"@)
}

/// The error for an optional parameter of the wrong JSON type.
pub open spec fn invalid_param_error(key: Seq<char>, expected: Seq<char>) -> (Seq<char>, Seq<char>) {
    ("INVALID_PATH"@, "invalid `"@ + key + "`: expected "@ + expected)
}

/// The (code, message) of an error.
pub open spec fn err_view(e: ToolError) -> (Seq<char>, Seq<char>) {
    (e.code@, e.message@)
}

/// The outcome of reading a required string parameter.
pub open spec fn str_param(params: Json, key: Seq<char>) -> Result<Seq<char>, (Seq<char>, Seq<char>)> {
    match json_get(params, key) {
        Some(Json::Str(v)) => Ok(v@),
        _ => Err(missing_param_error(key)),
    }
}

/// The outcome of reading an optional string parameter.
pub open spec fn str_opt_param(params: Json, key: Seq<char>) -> Result<
    Option<Seq<char>>,
    (Seq<char>, Seq<char>),
> {
    match json_get(params, key) {
        None => Ok(None),
        Some(Json::Str(v)) => Ok(Some(v@)),
        Some(_) => Err(invalid_param_error(key, "string"@)),
    }
}

/// The outcome of reading an optional boolean parameter.
pub open spec fn bool_opt_param(params: Json, key: Seq<char>) -> Result<
    Option<bool>,
    (Seq<char>, Seq<char>),
> {
    match json_get(params, key) {
        None => Ok(None),
        Some(Json::Bool(b)) => Ok(Some(b)),
        Some(_) => Err(invalid_param_error(key, "boolean"@)),
    }
}

/// The outcome of reading an optional non-negative integer parameter.
pub open spec fn u64_opt_param(params: Json, key: Seq<char>) -> Result<
    Option<u64>,
    (Seq<char>, Seq<char>),
> {
    match json_get(params, key) {
        None => Ok(None),
        Some(v) => match as_u64_spec(v) {
            Some(n) => Ok(Some(n)),
            None => Err(invalid_param_error(key, "integer"@)),
        },
    }
}

/// The outcome of reading an optional array-of-strings parameter.
pub open spec fn string_array_opt_param(params: Json, key: Seq<char>) -> Result<
    Option<Seq<Seq<char>>>,
    (Seq<char>, Seq<char>),
> {
    match json_get(params, key) {
        None => Ok(None),
        Some(Json::Array(items)) => if all_strings(items@) {
            Ok(Some(string_items(items@)))
        } else {
            Err(invalid_param_error(key, "array of strings"@))
        },
        Some(_) => Err(invalid_param_error(key, "array of strings"@)),
    }
}

/// The abstract outcome of a string result.
pub open spec fn str_outcome(r: Result<String, ToolError>) -> Result<Seq<char>, (Seq<char>, Seq<char>)> {
    match r {
        Ok(s) => Ok(s@),
        Err(e) => Err(err_view(e)),
    }
}

/// Required string parameter: the member `key` must be a JSON string.
pub fn json_str(params: &Json, key: &str) -> (r: Result<String, ToolError>)
    ensures
        match r {
            Ok(s) => json_get(*params, key@) matches Some(Json::Str(v)) && v@ == s@,
            Err(e) => !(json_get(*params, key@) matches Some(Json::Str(_))) && err_view(e)
                == missing_param_error(key@),
        },
        str_outcome(r) == str_param(*params, key@),
{
    match params.get(key) {
        Some(Json::Str(s)) => Ok(owned(s.as_str())),
        _ => Err(
            ToolError {
                code: owned("INVALID_PATH"),
                message: concat3("missing or invalid `", key, "`"),
            },
        ),
    }
}

/// The error for an optional parameter of the wrong type.
pub fn invalid_param(key: &str, expected: &str) -> (e: ToolError)
    ensures
        err_view(e) == invalid_param_error(key@, expected@),
{
    ToolError { code: owned("INVALID_PATH"), message: concat4("invalid `", key, "`: expected ", expected) }
}

/// Optional string parameter: absent gives `None`; present but not a string is an error.
pub fn json_str_opt(params: &Json, key: &str) -> (r: Result<Option<String>, ToolError>)
    ensures
        match json_get(*params, key@) {
            None => r == Ok::<Option<String>, ToolError>(None),
            Some(Json::Str(v)) => r matches Ok(Some(s)) && s@ == v@,
            Some(_) => r matches Err(e) && err_view(e) == invalid_param_error(key@, "string"@),
        },
        match r {
            Ok(Some(v)) => str_opt_param(*params, key@) == Ok::<Option<Seq<char>>, (Seq<char>, Seq<char>)>(Some(v@)),
            Ok(None) => str_opt_param(*params, key@) == Ok::<Option<Seq<char>>, (Seq<char>, Seq<char>)>(None),
            Err(e) => str_opt_param(*params, key@) == Err::<Option<Seq<char>>, (Seq<char>, Seq<char>)>(err_view(e)),
        },
{
    match params.get(key) {
        None => Ok(None),
        Some(Json::Str(s)) => Ok(Some(owned(s.as_str()))),
        Some(_) => Err(invalid_param(key, "string")),
    }
}

/// Optional boolean parameter.
pub fn json_bool_opt(params: &Json, key: &str) -> (r: Result<Option<bool>, ToolError>)
    ensures
        match json_get(*params, key@) {
            None => r == Ok::<Option<bool>, ToolError>(None),
            Some(Json::Bool(b)) => r == Ok::<Option<bool>, ToolError>(Some(b)),
            Some(_) => r matches Err(e) && err_view(e) == invalid_param_error(key@, "boolean"@),
        },
        match r {
            Ok(v) => bool_opt_param(*params, key@) == Ok::<Option<bool>, (Seq<char>, Seq<char>)>(v),
            Err(e) => bool_opt_param(*params, key@) == Err::<Option<bool>, (Seq<char>, Seq<char>)>(err_view(e)),
        },
{
    match params.get(key) {
        None => Ok(None),
        Some(Json::Bool(b)) => Ok(Some(*b)),
        Some(_) => Err(invalid_param(key, "boolean")),
    }
}

/// Optional non-negative integer parameter (`as_u64`).
pub fn json_u64_opt(params: &Json, key: &str) -> (r: Result<Option<u64>, ToolError>)
    ensures
        match json_get(*params, key@) {
            None => r == Ok::<Option<u64>, ToolError>(None),
            Some(v) => match as_u64_spec(v) {
                Some(n) => r == Ok::<Option<u64>, ToolError>(Some(n)),
                None => r matches Err(e) && err_view(e) == invalid_param_error(key@, "integer"@),
            },
        },
        match r {
            Ok(v) => u64_opt_param(*params, key@) == Ok::<Option<u64>, (Seq<char>, Seq<char>)>(v),
            Err(e) => u64_opt_param(*params, key@) == Err::<Option<u64>, (Seq<char>, Seq<char>)>(err_view(e)),
        },
{
    match params.get(key) {
        None => Ok(None),
        Some(v) => match v.as_u64() {
            Some(n) => Ok(Some(n)),
            None => Err(invalid_param(key, "integer")),
        },
    }
}

/// All items are JSON strings.
pub open spec fn all_strings(items: Seq<Json>) -> bool {
    forall|i: int| 0 <= i < items.len() ==> #[trigger] items[i] is Str
}

/// The texts of an all-string array.
pub open spec fn string_items(items: Seq<Json>) -> Seq<Seq<char>> {
    items.map_values(|j: Json| match j {
        Json::Str(s) => s@,
        _ => Seq::empty(),
    })
}

/// The texts held by a vector of strings.
pub open spec fn string_views(v: Seq<String>) -> Seq<Seq<char>> {
    v.map_values(|s: String| s@)
}

/// Optional array-of-strings parameter.
pub fn json_string_array_opt(params: &Json, key: &str) -> (r: Result<Option<Vec<String>>, ToolError>)
    ensures
        match json_get(*params, key@) {
            None => r matches Ok(None),
            Some(Json::Array(items)) => if all_strings(items@) {
                r matches Ok(Some(v)) && string_views(v@) == string_items(items@)
            } else {
                r matches Err(e) && err_view(e) == invalid_param_error(key@, "array of strings"@)
            },
            Some(_) => r matches Err(e) && err_view(e) == invalid_param_error(
                key@,
                "array of strings"@,
            ),
        },
        match r {
            Ok(Some(v)) => string_array_opt_param(*params, key@) == Ok::<Option<Seq<Seq<char>>>, (Seq<char>, Seq<char>)>(Some(string_views(v@))),
            Ok(None) => string_array_opt_param(*params, key@) == Ok::<Option<Seq<Seq<char>>>, (Seq<char>, Seq<char>)>(None),
            Err(e) => string_array_opt_param(*params, key@) == Err::<Option<Seq<Seq<char>>>, (Seq<char>, Seq<char>)>(err_view(e)),
        },
{
    match params.get(key) {
        None => Ok(None),
        Some(Json::Array(items)) => {
            let mut out: Vec<String> = Vec::new();
            let mut i: usize = 0;
            while i < items.len()
                invariant
                    json_get(*params, key@) == Some(Json::Array(*items)),
                    i <= items@.len(),
                    all_strings(items@.take(i as int)),
                    string_views(out@) == string_items(items@.take(i as int)),
                decreases items@.len() - i,
            {
                match &items[i] {
                    Json::Str(s) => {
                        let ghost before = out@;
                        out.push(owned(s.as_str()));
                        assert(items@.take(i + 1) == items@.take(i as int).push(items@[i as int]));
                        assert(string_views(out@) =~= string_views(before).push(s@));
                        assert(string_items(items@.take(i + 1)) =~= string_items(
                            items@.take(i as int),
                        ).push(s@));
                    },
                    _ => {
                        assert(!(items@[i as int] is Str));
                        assert(!all_strings(items@));
                        return Err(invalid_param(key, "array of strings"));
                    },
                }
                i = i + 1;
            }
            assert(items@.take(items@.len() as int) == items@);
            Ok(Some(out))
        },
        Some(_) => Err(invalid_param(key, "array of strings")),
    }
}

/// Optional integer parameter that must be a non-negative JSON integer; `null` counts as
/// absent.
pub fn json_u64_integer_opt(params: &Json, key: &str) -> (r: Result<Option<u64>, ToolError>)
    ensures
        match json_get(*params, key@) {
            None => r == Ok::<Option<u64>, ToolError>(None),
            Some(Json::Null) => r == Ok::<Option<u64>, ToolError>(None),
            Some(v) => match as_u64_spec(v) {
                Some(n) => r == Ok::<Option<u64>, ToolError>(Some(n)),
                None => match as_i64_spec(v) {
                    Some(n) => if n >= 0 {
                        r == Ok::<Option<u64>, ToolError>(Some(n as u64))
                    } else {
                        r matches Err(e) && err_view(e) == ("INVALID_PATH"@, "`"@ + key@
                            + "` must be a non-negative JSON integer"@)
                    },
                    None => r matches Err(e) && err_view(e) == ("INVALID_PATH"@, "`"@ + key@
                        + "` must be a non-negative JSON integer"@),
                },
            },
        },
{
    let x = match params.get(key) {
        None => {
            return Ok(None);
        },
        Some(x) => x,
    };
    if x.is_null() {
        return Ok(None);
    }
    if let Some(n) = x.as_u64() {
        return Ok(Some(n));
    }
    if let Some(n) = x.as_i64() {
        if n >= 0 {
            return Ok(Some(n as u64));
        }
    }
    Err(
        ToolError {
            code: owned("INVALID_PATH"),
            message: concat3("`", key, "` must be a non-negative JSON integer"),
        },
    )
}

/// A copy of a vector of strings.
pub fn copy_strings(v: &Vec<String>) -> (r: Vec<String>)
    ensures
        string_views(r@) == string_views(v@),
{
    let mut out: Vec<String> = Vec::new();
    let mut i: usize = 0;
    while i < v.len()
        invariant
            i <= v@.len(),
            string_views(out@) == string_views(v@.take(i as int)),
        decreases v@.len() - i,
    {
        let ghost before = out@;
        out.push(owned(v[i].as_str()));
        assert(string_views(out@) =~= string_views(before).push(v@[i as int]@));
        assert(v@.take(i + 1) == v@.take(i as int).push(v@[i as int]));
        assert(string_views(v@.take(i + 1)) =~= string_views(v@.take(i as int)).push(v@[i as int]@));
        i = i + 1;
    }
    assert(v@.take(v@.len() as int) == v@);
    out
}

/// The outcome of reading an optional array-of-strings parameter, absent meaning empty.
pub open spec fn string_list_param(params: Json, key: Seq<char>) -> Result<Seq<Seq<char>>, (Seq<char>, Seq<char>)> {
    match string_array_opt_param(params, key) {
        Err(e) => Err(e),
        Ok(None) => Ok(Seq::empty()),
        Ok(Some(v)) => Ok(v),
    }
}

/// Read an optional array-of-strings parameter; absent gives the empty list.
pub fn json_string_list(params: &Json, key: &str) -> (r: Result<Vec<String>, ToolError>)
    ensures
        match r {
            Ok(v) => string_list_param(*params, key@) == Ok::<Seq<Seq<char>>, (Seq<char>, Seq<char>)>(string_views(v@)),
            Err(e) => string_list_param(*params, key@) == Err::<Seq<Seq<char>>, (Seq<char>, Seq<char>)>(err_view(e)),
        },
{
    match json_string_array_opt(params, key)? {
        Some(v) => Ok(v),
        None => {
            let v: Vec<String> = Vec::new();
            assert(string_views(v@) =~= Seq::<Seq<char>>::empty());
            Ok(v)
        },
    }
}

/// The member `key` when it is a string; anything else counts as absent
/// (`get(key).and_then(as_str)`).
pub open spec fn lenient_str(params: Json, key: Seq<char>) -> Option<Seq<char>> {
    match json_get(params, key) {
        Some(Json::Str(s)) => Some(s@),
        _ => None,
    }
}

/// The abstract value of an optional string.
pub open spec fn opt_view(o: Option<String>) -> Option<Seq<char>> {
    match o {
        Some(s) => Some(s@),
        None => None,
    }
}

/// Read a member that counts only when it is a string.
pub fn json_str_lenient(params: &Json, key: &str) -> (r: Option<String>)
    ensures
        opt_view(r) == lenient_str(*params, key@),
{
    match params.get(key) {
        Some(Json::Str(s)) => Some(owned(s.as_str())),
        _ => None,
    }
}

/// The member `key` when it is a non-negative integer (`get(key).and_then(as_u64)`).
pub open spec fn lenient_u64(params: Json, key: Seq<char>) -> Option<u64> {
    match json_get(params, key) {
        Some(v) => as_u64_spec(v),
        None => None,
    }
}

/// Read a member that counts only when it is a non-negative integer.
pub fn json_u64_lenient(params: &Json, key: &str) -> (r: Option<u64>)
    ensures
        r == lenient_u64(*params, key@),
{
    match params.get(key) {
        Some(v) => v.as_u64(),
        None => None,
    }
}

/// The strings among JSON items, in order; other items are skipped.
pub open spec fn strings_among(items: Seq<Json>) -> Seq<Seq<char>>
    decreases items.len(),
{
    if items.len() == 0 {
        seq![]
    } else {
        let prev = strings_among(items.drop_last());
        match items.last() {
            Json::Str(s) => prev.push(s@),
            _ => prev,
        }
    }
}

/// The strings among JSON items.
pub fn collect_strings(items: &Vec<Json>) -> (r: Vec<String>)
    ensures
        string_views(r@) == strings_among(items@),
{
    let mut out: Vec<String> = Vec::new();
    let mut i: usize = 0;
    while i < items.len()
        invariant
            i <= items@.len(),
            string_views(out@) == strings_among(items@.take(i as int)),
        decreases items@.len() - i,
    {
        assert(items@.take(i + 1).drop_last() == items@.take(i as int));
        assert(items@.take(i + 1).last() == items@[i as int]);
        match &items[i] {
            Json::Str(s) => {
                let ghost before = out@;
                out.push(owned(s.as_str()));
                assert(string_views(out@) =~= string_views(before).push(s@));
            },
            _ => {},
        }
        i = i + 1;
    }
    assert(items@.take(items@.len() as int) == items@);
    out
}

/// The strings of the member `key` when it is an array; empty otherwise.
pub open spec fn lenient_strings(params: Json, key: Seq<char>) -> Seq<Seq<char>> {
    match json_get(params, key) {
        Some(Json::Array(items)) => strings_among(items@),
        _ => seq![],
    }
}

/// Read the strings of an array member, skipping other items; a missing or non-array
/// member gives none.
pub fn json_strings_lenient(params: &Json, key: &str) -> (r: Vec<String>)
    ensures
        string_views(r@) == lenient_strings(*params, key@),
{
    match params.get(key) {
        Some(Json::Array(items)) => collect_strings(items),
        _ => {
            let v: Vec<String> = Vec::new();
            assert(string_views(v@) =~= Seq::<Seq<char>>::empty());
            v
        },
    }
}

} // verus!
