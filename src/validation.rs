//! The checks a request's payload passes before any store access: lengths
//! in characters and numbers in range.
use vstd::prelude::*;

use crate::payloads::{
    ArchiveTransferPayload, CredentialsPayload, DisposalRegisterPayload, DrawerAssignmentPayload,
    LoanReturnPayload, ReorganizationRequestPayload, TerminationPayload, TokenPayload,
};
use crate::store::ArchiveError;

verus! {

/// Highest position number a request may name.
pub const MAX_POSITION: i64 = 500;

/// Longest free text a request may carry.
pub const MAX_NOTE_CHARS: usize = 500;

/// Longest term number a disposal may be given.
pub const MAX_TERM_CHARS: usize = 100;

/// The text's length in characters lies in `min..=max`.
pub open spec fn len_in(s: Seq<char>, min: int, max: int) -> bool {
    min <= s.len() && s.len() <= max
}

/// The optional text is absent or at most `max` characters long.
pub open spec fn opt_len_at_most(o: Option<String>, max: int) -> bool {
    match o {
        Some(s) => s@.len() <= max,
        None => true,
    }
}

fn opt_short(o: &Option<String>, max: usize) -> (r: bool)
    ensures
        r == opt_len_at_most(*o, max as int),
{
    match o {
        Some(s) => s.as_str().unicode_len() <= max,
        None => true,
    }
}

/// The result of a check: fine, or invalid input.
pub open spec fn verdict(ok: bool) -> Result<(), ArchiveError> {
    if ok {
        Ok(())
    } else {
        Err(ArchiveError::InvalidInput)
    }
}

impl TokenPayload {
    /// The token is not empty.
    pub fn validate(&self) -> (r: Result<(), ArchiveError>)
        ensures
            r == verdict(self.token@.len() > 0),
    {
        if self.token.as_str().unicode_len() > 0 {
            Ok(())
        } else {
            Err(ArchiveError::InvalidInput)
        }
    }
}

impl CredentialsPayload {
    /// The login has 3 to 100 characters, the password 4 to 100.
    pub fn validate(&self) -> (r: Result<(), ArchiveError>)
        ensures
            r == verdict(len_in(self.login@, 3, 100) && len_in(self.password@, 4, 100)),
    {
        let l = self.login.as_str().unicode_len();
        let p = self.password.as_str().unicode_len();
        if 3 <= l && l <= 100 && 4 <= p && p <= 100 {
            Ok(())
        } else {
            Err(ArchiveError::InvalidInput)
        }
    }
}

impl DrawerAssignmentPayload {
    /// The token is not empty and the position lies in 1 to 500.
    pub fn validate(&self) -> (r: Result<(), ArchiveError>)
        ensures
            r == verdict(self.token@.len() > 0 && 1 <= self.position && self.position <= MAX_POSITION),
    {
        if self.token.as_str().unicode_len() > 0 && 1 <= self.position && self.position
            <= MAX_POSITION {
            Ok(())
        } else {
            Err(ArchiveError::InvalidInput)
        }
    }
}

impl ReorganizationRequestPayload {
    /// The token is not empty; a threshold given lies in 50 to 100, a
    /// budget given in 1 to 50.
    pub fn validate(&self) -> (r: Result<(), ArchiveError>)
        ensures
            r == verdict(self.token@.len() > 0 && (match self.critical_threshold {
                Some(t) => 50 <= t && t <= 100,
                None => true,
            }) && (match self.max_moves {
                Some(m) => 1 <= m && m <= 50,
                None => true,
            })),
    {
        let t_ok = match self.critical_threshold {
            Some(t) => 50 <= t && t <= 100,
            None => true,
        };
        let m_ok = match self.max_moves {
            Some(m) => 1 <= m && m <= 50,
            None => true,
        };
        if self.token.as_str().unicode_len() > 0 && t_ok && m_ok {
            Ok(())
        } else {
            Err(ArchiveError::InvalidInput)
        }
    }
}

impl TerminationPayload {
    /// The token is not empty, the date has at least 4 characters, and a
    /// reason has at most 500.
    pub fn validate(&self) -> (r: Result<(), ArchiveError>)
        ensures
            r == verdict(self.token@.len() > 0 && self.termination_date@.len() >= 4
                && opt_len_at_most(self.reason, 500)),
    {
        if self.token.as_str().unicode_len() > 0 && self.termination_date.as_str().unicode_len()
            >= 4 && opt_short(&self.reason, MAX_NOTE_CHARS) {
            Ok(())
        } else {
            Err(ArchiveError::InvalidInput)
        }
    }
}

impl ArchiveTransferPayload {
    /// The token is not empty.
    pub fn validate(&self) -> (r: Result<(), ArchiveError>)
        ensures
            r == verdict(self.token@.len() > 0),
    {
        if self.token.as_str().unicode_len() > 0 {
            Ok(())
        } else {
            Err(ArchiveError::InvalidInput)
        }
    }
}

impl LoanReturnPayload {
    /// The token is not empty and notes have at most 500 characters.
    pub fn validate(&self) -> (r: Result<(), ArchiveError>)
        ensures
            r == verdict(self.token@.len() > 0 && opt_len_at_most(self.return_notes, 500)),
    {
        if self.token.as_str().unicode_len() > 0 && opt_short(&self.return_notes, MAX_NOTE_CHARS) {
            Ok(())
        } else {
            Err(ArchiveError::InvalidInput)
        }
    }
}

impl DisposalRegisterPayload {
    /// The token is not empty, at least one item is named, and a term
    /// number has at most 100 characters.
    pub fn validate(&self) -> (r: Result<(), ArchiveError>)
        ensures
            r == verdict(self.token@.len() > 0 && self.item_ids@.len() > 0 && opt_len_at_most(
                self.term_number,
                100,
            )),
    {
        if self.token.as_str().unicode_len() > 0 && self.item_ids.len() > 0 && opt_short(
            &self.term_number,
            MAX_TERM_CHARS,
        ) {
            Ok(())
        } else {
            Err(ArchiveError::InvalidInput)
        }
    }
}

} // verus!
