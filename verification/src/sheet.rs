//! Choice of the sheet to export: by name, by position from the front, by
//! position from the back, or the first sheet where the identifier is neither
//! a name nor a number.

use crate::text::{chars_of, decimal, lemma_decimal_digits, lemma_parse_decimal, parse_bounded, parse_number};
use vstd::prelude::*;
use vstd::string::*;

verus! {

/// Why no sheet could be chosen.
#[derive(Debug, Clone, Copy, PartialEq, Eq)]
pub enum ResolveError {
    /// A position from the front that lies behind the last sheet.
    OutOfRange,
    /// The workbook has no sheet to wrap to or to fall back on.
    EmptyWorkbook,
}

impl ResolveError {
    /// The text of the error.
    pub open spec fn message_spec(self) -> Seq<char> {
        match self {
            ResolveError::OutOfRange => "sheet position out of range"@,
            ResolveError::EmptyWorkbook => "the workbook has no sheets"@,
        }
    }

    /// The text of the error.
    pub fn message(&self) -> (text: String)
        ensures
            text@ == self.message_spec(),
    {
        match self {
            ResolveError::OutOfRange => String::from_str("sheet position out of range"),
            ResolveError::EmptyWorkbook => String::from_str("the workbook has no sheets"),
        }
    }
}

/// How an identifier was understood.
#[derive(Debug, Clone, Copy, PartialEq, Eq)]
pub enum Route {
    /// It is the name of a sheet.
    ByName,
    /// It is a number: a position from the front, or from the back if negative.
    ByNumber,
    /// It is neither, and the first sheet stands in for it.
    Fallback,
}

/// The sheet that an identifier leads to.
#[derive(Debug, Clone, Copy)]
pub struct Located {
    pub position: usize,
    pub route: Route,
}

/// The sheet names as plain texts.
pub open spec fn texts(names: Seq<String>) -> Seq<Seq<char>> {
    Seq::new(names.len(), |i: int| names[i]@)
}

/// The number that an identifier denotes, if it is a numeral of a signed
/// 32-bit integer.
pub open spec fn sheet_number(identifier: Seq<char>) -> Option<int> {
    parse_bounded(identifier, i32::MIN as int, i32::MAX as int)
}

/// The position counted from the back: `-1` is the last of `n` sheets, and
/// what lies before the first sheet is the first sheet.
pub open spec fn wrap_position(n: int, k: int) -> int {
    if n + k < 0 {
        0
    } else {
        n + k
    }
}

/// The position and route that `identifier` leads to among `names`.
pub open spec fn locate_spec(identifier: Seq<char>, names: Seq<Seq<char>>) -> Result<
    (int, Route),
    ResolveError,
> {
    if names.contains(identifier) {
        Ok((names.index_of_first(identifier).unwrap(), Route::ByName))
    } else {
        match sheet_number(identifier) {
            Some(k) => if k >= 0 {
                if k < names.len() {
                    Ok((k, Route::ByNumber))
                } else {
                    Err(ResolveError::OutOfRange)
                }
            } else if names.len() == 0 {
                Err(ResolveError::EmptyWorkbook)
            } else {
                Ok((wrap_position(names.len() as int, k), Route::ByNumber))
            },
            None => if names.len() == 0 {
                Err(ResolveError::EmptyWorkbook)
            } else {
                Ok((0, Route::Fallback))
            },
        }
    }
}

/// The name that `identifier` leads to among `names`.
pub open spec fn resolve_spec(identifier: Seq<char>, names: Seq<Seq<char>>) -> Result<
    Seq<char>,
    ResolveError,
> {
    match locate_spec(identifier, names) {
        Ok(found) => Ok(names[found.0]),
        Err(e) => Err(e),
    }
}

/// The first position at which `identifier` stands among `names`.
pub fn find_name(identifier: &str, names: &Vec<String>) -> (r: Option<usize>)
    ensures
        r.is_some() == texts(names@).contains(identifier@),
        match r {
            Some(i) => i < names.len() && names[i as int]@ == identifier@ && texts(
                names@,
            ).index_of_first(identifier@) == Some(i as int),
            None => true,
        },
{
    let wanted = String::from_str(identifier);
    let ghost all = texts(names@);
    let mut i: usize = 0;
    while i < names.len()
        invariant
            i <= names.len(),
            all == texts(names@),
            wanted@ == identifier@,
            forall|j: int| 0 <= j < i ==> all[j] != identifier@,
        decreases names.len() - i,
    {
        if names[i] == wanted {
            proof {
                assert(all[i as int] == identifier@);
                all.index_of_first_ensures(identifier@);
            }
            return Some(i);
        }
        i += 1;
    }
    None
}

/// Finds the sheet that `identifier` leads to and says by which route.
pub fn locate(identifier: &str, names: &Vec<String>) -> (r: Result<Located, ResolveError>)
    ensures
        match r {
            Ok(found) => locate_spec(identifier@, texts(names@)) == Ok::<
                (int, Route),
                ResolveError,
            >((found.position as int, found.route)) && found.position < names.len(),
            Err(e) => locate_spec(identifier@, texts(names@)) == Err::<(int, Route), ResolveError>(
                e,
            ),
        },
{
    let n = names.len();
    match find_name(identifier, names) {
        Some(i) => Ok(Located { position: i, route: Route::ByName }),
        None => {
            let chars = chars_of(identifier);
            match parse_number(&chars, -0x8000_0000i64, 0x7fff_ffffi64) {
                Some(k) => {
                    if k >= 0 {
                        if (k as u64) < (n as u64) {
                            Ok(Located { position: k as usize, route: Route::ByNumber })
                        } else {
                            Err(ResolveError::OutOfRange)
                        }
                    } else if n == 0 {
                        Err(ResolveError::EmptyWorkbook)
                    } else {
                        let back: u64 = (-k) as u64;
                        let position: usize = if back > n as u64 {
                            0
                        } else {
                            n - (back as usize)
                        };
                        Ok(Located { position, route: Route::ByNumber })
                    }
                },
                None => {
                    if n == 0 {
                        Err(ResolveError::EmptyWorkbook)
                    } else {
                        Ok(Located { position: 0, route: Route::Fallback })
                    }
                },
            }
        },
    }
}

/// The name of the sheet that `identifier` leads to.
///
/// A name of a sheet leads to that sheet. Otherwise a number `k >= 0` leads to
/// the sheet at position `k` and fails behind the last one; a number `k < 0`
/// counts from the back and stops at the first sheet; anything else leads to
/// the first sheet.
pub fn resolve(identifier: &str, names: &Vec<String>) -> (r: Result<String, ResolveError>)
    ensures
        match r {
            Ok(name) => resolve_spec(identifier@, texts(names@)) == Ok::<Seq<char>, ResolveError>(
                name@,
            ),
            Err(e) => resolve_spec(identifier@, texts(names@)) == Err::<Seq<char>, ResolveError>(e),
        },
{
    match locate(identifier, names) {
        Ok(found) => Ok(names[found.position].clone()),
        Err(e) => Err(e),
    }
}

/// A numeral of a position from the front leads to the sheet at that position,
/// unless the numeral is itself the name of a sheet.
pub proof fn law_front_position(k: int, names: Seq<Seq<char>>)
    requires
        0 <= k < names.len(),
        k <= i32::MAX,
        !names.contains(decimal(k)),
    ensures
        resolve_spec(decimal(k), names) == Ok::<Seq<char>, ResolveError>(names[k]),
{
    lemma_parse_decimal(k);
    lemma_decimal_digits(k as nat);
}

/// A numeral of a position from the back leads to the sheet that many places
/// before the end, and to the first sheet where it reaches further back,
/// unless the numeral is itself the name of a sheet.
pub proof fn law_back_position(k: int, names: Seq<Seq<char>>)
    requires
        1 <= k <= -(i32::MIN as int),
        names.len() > 0,
        !names.contains(decimal(-k)),
    ensures
        k <= names.len() ==> resolve_spec(decimal(-k), names) == Ok::<Seq<char>, ResolveError>(
            names[names.len() - k],
        ),
        k > names.len() ==> resolve_spec(decimal(-k), names) == Ok::<Seq<char>, ResolveError>(
            names[0],
        ),
{
    lemma_parse_decimal(-k);
}

/// An identifier that is neither a name nor a number leads to the first sheet.
pub proof fn law_fallback(identifier: Seq<char>, names: Seq<Seq<char>>)
    requires
        names.len() > 0,
        !names.contains(identifier),
        sheet_number(identifier).is_none(),
    ensures
        resolve_spec(identifier, names) == Ok::<Seq<char>, ResolveError>(names[0]),
{
}

/// Whatever the identifier, a sheet that is chosen is one of the workbook's.
pub proof fn law_position_in_range(identifier: Seq<char>, names: Seq<Seq<char>>)
    ensures
        match locate_spec(identifier, names) {
            Ok(found) => 0 <= found.0 < names.len(),
            Err(_) => true,
        },
{
    if names.contains(identifier) {
        names.index_of_first_ensures(identifier);
    }
}

} // verus!
