//! Object identifiers: short printable-ASCII strings attached to points.

use vstd::prelude::*;
use vstd::string::StrSliceExecFns;
use crate::error::ProxyError;

verus! {

/// A valid identifier has at most 100 characters, each in the printable
/// ASCII range 0x20 to 0x7E.
pub open spec fn valid_identifier(s: Seq<char>) -> bool {
    &&& s.len() <= 100
    &&& forall|i: int| 0 <= i < s.len() ==> 0x20 <= #[trigger] (s[i] as u32) <= 0x7E
}

/// An object identifier, known valid from construction.
#[derive(Debug, PartialEq, Eq)]
pub struct Identifier {
    value: String,
}

impl View for Identifier {
    type V = Seq<char>;

    closed spec fn view(&self) -> Seq<char> {
        self.value@
    }
}

impl Clone for Identifier {
    fn clone(&self) -> (r: Self)
        ensures
            r@ == self@,
    {
        Identifier { value: self.value.clone() }
    }
}

impl Identifier {
    /// Accepts the string as an identifier exactly when it is valid.
    pub fn new(s: &str) -> (r: Result<Identifier, ProxyError>)
        ensures
            match r {
                Ok(id) => valid_identifier(s@) && id@ == s@,
                Err(e) => !valid_identifier(s@) && e == ProxyError::BadIdentifier,
            },
    {
        let n = s.unicode_len();
        if n > 100 {
            return Err(ProxyError::BadIdentifier);
        }
        let mut i: usize = 0;
        while i < n
            invariant
                n == s@.len(),
                i <= n,
                forall|j: int| 0 <= j < i ==> 0x20 <= #[trigger] (s@[j] as u32) <= 0x7E,
            decreases n - i,
        {
            let c = s.get_char(i);
            let u = c as u32;
            if u < 0x20 || u > 0x7E {
                return Err(ProxyError::BadIdentifier);
            }
            i += 1;
        }
        Ok(Identifier { value: s.to_owned() })
    }

    /// The identifier's characters.
    pub fn as_str(&self) -> (r: &str)
        ensures
            r@ == self@,
    {
        self.value.as_str()
    }
}

/// The view of an optional identifier.
pub open spec fn opt_id_view(o: Option<Identifier>) -> Option<Seq<char>> {
    match o {
        Some(id) => Some(id@),
        None => None,
    }
}

/// Copies an optional identifier, keeping its view.
pub fn clone_opt_identifier(o: &Option<Identifier>) -> (r: Option<Identifier>)
    ensures
        opt_id_view(r) == opt_id_view(*o),
{
    match o {
        Some(id) => Some(id.clone()),
        None => None,
    }
}

/// Equality of two optional identifiers, by their characters.
pub fn opt_id_eq(a: &Option<Identifier>, b: &Option<Identifier>) -> (r: bool)
    ensures
        r == (opt_id_view(*a) == opt_id_view(*b)),
{
    match (a, b) {
        (None, None) => true,
        (Some(x), Some(y)) => crate::util::str_eq(x.as_str(), y.as_str()),
        _ => false,
    }
}

/// Turns an optional string into an optional identifier, rejecting an
/// invalid one.
pub fn to_identifier(s: Option<&str>) -> (r: Result<Option<Identifier>, ProxyError>)
    ensures
        match r {
            Ok(o) => match s {
                None => o is None,
                Some(t) => valid_identifier(t@) && (o matches Some(id) && id@ == t@),
            },
            Err(e) => s matches Some(t) && !valid_identifier(t@)
                && e == ProxyError::BadIdentifier,
        },
{
    match s {
        None => Ok(None),
        Some(t) => match Identifier::new(t) {
            Ok(id) => Ok(Some(id)),
            Err(e) => Err(e),
        },
    }
}

} // verus!
