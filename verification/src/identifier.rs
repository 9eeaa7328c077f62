//! Protocol-scoped identifiers: bounded, log-safe labels.

use vstd::prelude::*;
use vstd::std_specs::cmp::PartialEqSpecImpl;

use crate::error::{RendezvousError, SpecRendezvousError};

verus! {

/// Characters allowed in an identifier: ASCII letters, digits, `.`, `_` and `-`.
pub open spec fn identifier_char(c: char) -> bool {
    ||| ('a' <= c && c <= 'z')
    ||| ('A' <= c && c <= 'Z')
    ||| ('0' <= c && c <= '9')
    ||| c == '.'
    ||| c == '_'
    ||| c == '-'
}

/// A valid identifier has 1 to 64 characters, each an [`identifier_char`].
///
/// All allowed characters are ASCII, so counting characters and counting
/// bytes agree on every text that passes.
pub open spec fn valid_identifier(s: Seq<char>) -> bool {
    &&& 1 <= s.len() <= 64
    &&& forall|i: int| 0 <= i < s.len() ==> identifier_char(#[trigger] s[i])
}

/// Decides [`identifier_char`].
pub fn is_identifier_char(c: char) -> (r: bool)
    ensures
        r == identifier_char(c),
{
    ('a' <= c && c <= 'z') || ('A' <= c && c <= 'Z') || ('0' <= c && c <= '9') || c == '.' || c
        == '_' || c == '-'
}

/// Decides [`valid_identifier`].
pub fn check_identifier(value: &str) -> (r: bool)
    ensures
        r == valid_identifier(value@),
{
    let n = value.unicode_len();
    if n == 0 || n > 64 {
        return false;
    }
    let mut i: usize = 0;
    while i < n
        invariant
            n == value@.len(),
            i <= n,
            forall|j: int| 0 <= j < i ==> identifier_char(#[trigger] value@[j]),
        decreases n - i,
    {
        if !is_identifier_char(value.get_char(i)) {
            return false;
        }
        i = i + 1;
    }
    true
}

/// Protocol-scoped negotiation identifier in the simulator profile.
#[derive(Debug, Eq, PartialOrd, Ord, Hash)]
pub struct NegotiationId(String);

impl View for NegotiationId {
    type V = Seq<char>;

    closed spec fn view(&self) -> Seq<char> {
        self.0@
    }
}

impl Clone for NegotiationId {
    fn clone(&self) -> (r: Self)
        ensures
            r@ == self@,
    {
        proof {
            use_type_invariant(self);
        }
        NegotiationId(self.0.clone())
    }
}

impl PartialEq for NegotiationId {
    fn eq(&self, other: &Self) -> (r: bool) {
        self.0 == other.0
    }
}

impl PartialEqSpecImpl for NegotiationId {
    open spec fn obeys_eq_spec() -> bool {
        true
    }

    open spec fn eq_spec(&self, other: &Self) -> bool {
        self@ == other@
    }
}

impl NegotiationId {
    /// Every negotiation identifier is valid.
    #[verifier::type_invariant]
    pub(crate) open spec fn inv(self) -> bool {
        valid_identifier(self@)
    }

    /// Creates a bounded, log-safe identifier; fails unless the text is a
    /// [`valid_identifier`].
    pub fn new(value: &str) -> (res: Result<Self, RendezvousError>)
        ensures
            valid_identifier(value@) ==> (res matches Ok(id) && id@ == value@),
            !valid_identifier(value@) ==> (res matches Err(e) && e@
                == SpecRendezvousError::InvalidIdentifier("negotiation"@)),
    {
        if !check_identifier(value) {
            return Err(RendezvousError::InvalidIdentifier("negotiation"));
        }
        Ok(NegotiationId(value.to_owned()))
    }

    /// Returns the identifier text.
    pub fn as_str(&self) -> (s: &str)
        ensures
            s@ == self@,
            valid_identifier(self@),
    {
        proof {
            use_type_invariant(self);
        }
        self.0.as_str()
    }

    /// Returns an owned copy of the identifier text.
    pub fn to_string(&self) -> (s: String)
        ensures
            s@ == self@,
            valid_identifier(self@),
    {
        proof {
            use_type_invariant(self);
        }
        self.0.clone()
    }
}

/// Protocol-scoped member identifier in the simulator profile.
#[derive(Debug, Eq, PartialOrd, Ord, Hash)]
pub struct MemberId(String);

impl View for MemberId {
    type V = Seq<char>;

    closed spec fn view(&self) -> Seq<char> {
        self.0@
    }
}

impl Clone for MemberId {
    fn clone(&self) -> (r: Self)
        ensures
            r@ == self@,
    {
        proof {
            use_type_invariant(self);
        }
        MemberId(self.0.clone())
    }
}

impl PartialEq for MemberId {
    fn eq(&self, other: &Self) -> (r: bool) {
        self.0 == other.0
    }
}

impl PartialEqSpecImpl for MemberId {
    open spec fn obeys_eq_spec() -> bool {
        true
    }

    open spec fn eq_spec(&self, other: &Self) -> bool {
        self@ == other@
    }
}

impl MemberId {
    /// Every member identifier is valid.
    #[verifier::type_invariant]
    pub(crate) open spec fn inv(self) -> bool {
        valid_identifier(self@)
    }

    /// Creates a bounded, log-safe identifier; fails unless the text is a
    /// [`valid_identifier`].
    pub fn new(value: &str) -> (res: Result<Self, RendezvousError>)
        ensures
            valid_identifier(value@) ==> (res matches Ok(id) && id@ == value@),
            !valid_identifier(value@) ==> (res matches Err(e) && e@
                == SpecRendezvousError::InvalidIdentifier("member"@)),
    {
        if !check_identifier(value) {
            return Err(RendezvousError::InvalidIdentifier("member"));
        }
        Ok(MemberId(value.to_owned()))
    }

    /// Returns the identifier text.
    pub fn as_str(&self) -> (s: &str)
        ensures
            s@ == self@,
            valid_identifier(self@),
    {
        proof {
            use_type_invariant(self);
        }
        self.0.as_str()
    }

    /// Returns an owned copy of the identifier text.
    pub fn to_string(&self) -> (s: String)
        ensures
            s@ == self@,
            valid_identifier(self@),
    {
        proof {
            use_type_invariant(self);
        }
        self.0.clone()
    }
}

/// Protocol-scoped candidate identifier in the simulator profile.
#[derive(Debug, Eq, PartialOrd, Ord, Hash)]
pub struct CandidateId(String);

impl View for CandidateId {
    type V = Seq<char>;

    closed spec fn view(&self) -> Seq<char> {
        self.0@
    }
}

impl Clone for CandidateId {
    fn clone(&self) -> (r: Self)
        ensures
            r@ == self@,
    {
        proof {
            use_type_invariant(self);
        }
        CandidateId(self.0.clone())
    }
}

impl PartialEq for CandidateId {
    fn eq(&self, other: &Self) -> (r: bool) {
        self.0 == other.0
    }
}

impl PartialEqSpecImpl for CandidateId {
    open spec fn obeys_eq_spec() -> bool {
        true
    }

    open spec fn eq_spec(&self, other: &Self) -> bool {
        self@ == other@
    }
}

impl CandidateId {
    /// Every candidate identifier is valid.
    #[verifier::type_invariant]
    pub(crate) open spec fn inv(self) -> bool {
        valid_identifier(self@)
    }

    /// Creates a bounded, log-safe identifier; fails unless the text is a
    /// [`valid_identifier`].
    pub fn new(value: &str) -> (res: Result<Self, RendezvousError>)
        ensures
            valid_identifier(value@) ==> (res matches Ok(id) && id@ == value@),
            !valid_identifier(value@) ==> (res matches Err(e) && e@
                == SpecRendezvousError::InvalidIdentifier("candidate"@)),
    {
        if !check_identifier(value) {
            return Err(RendezvousError::InvalidIdentifier("candidate"));
        }
        Ok(CandidateId(value.to_owned()))
    }

    /// Returns the identifier text.
    pub fn as_str(&self) -> (s: &str)
        ensures
            s@ == self@,
            valid_identifier(self@),
    {
        proof {
            use_type_invariant(self);
        }
        self.0.as_str()
    }

    /// Returns an owned copy of the identifier text.
    pub fn to_string(&self) -> (s: String)
        ensures
            s@ == self@,
            valid_identifier(self@),
    {
        proof {
            use_type_invariant(self);
        }
        self.0.clone()
    }
}

} // verus!
