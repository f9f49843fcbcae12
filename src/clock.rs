//! What the library takes from outside: the clock (chrono), random session
//! tokens (uuid), password hashes (bcrypt), and text functions of std.
//! Each function here is trusted: its contract is not proved.
use vstd::prelude::*;

verus! {

/// What `str::trim` returns for a text.
pub uninterp spec fn trim_of(s: Seq<char>) -> Seq<char>;

/// Relies on `str::trim`: the text without leading and trailing white
/// space, which depends on the text alone.
#[verifier::external_body]
pub(crate) fn trimmed(s: &str) -> (r: String)
    ensures
        r@ == trim_of(s@),
{
    s.trim().to_string()
}

/// Relies on chrono's `Utc::now` and `DateTime::to_rfc3339`: the current
/// time, which nothing here predicts.
#[verifier::external_body]
pub(crate) fn utc_now_rfc3339() -> (r: String) {
    chrono::Utc::now().to_rfc3339()
}

/// Relies on chrono's `Utc::now` and `NaiveDate`'s `%Y-%m-%d` format: the
/// current UTC date, which nothing here predicts.
#[verifier::external_body]
pub(crate) fn utc_today() -> (r: String) {
    chrono::Utc::now().date_naive().format("%Y-%m-%d").to_string()
}

/// Relies on chrono's `Utc::now` and `DateTime::timestamp_millis`: the
/// current time in milliseconds, which nothing here predicts.
#[verifier::external_body]
pub(crate) fn utc_now_millis() -> (r: i64) {
    chrono::Utc::now().timestamp_millis()
}

/// The decimal digits of a natural number.
pub open spec fn digits_of(n: nat) -> Seq<char>
    decreases n,
{
    let d = seq![(('0' as u8) + ((n % 10) as u8)) as char];
    if n < 10 {
        d
    } else {
        digits_of(n / 10) + d
    }
}

/// An integer in decimal, with a leading `-` when negative.
pub open spec fn decimal_of(n: int) -> Seq<char> {
    if n < 0 {
        seq!['-'] + digits_of((-n) as nat)
    } else {
        digits_of(n as nat)
    }
}

/// Relies on `i64`'s `to_string`, which writes the integer in decimal with
/// a leading `-` when negative.
#[verifier::external_body]
pub(crate) fn decimal(n: i64) -> (r: String)
    ensures
        r@ == decimal_of(n as int),
{
    n.to_string()
}

/// A text with each `:` turned into `-`.
pub open spec fn colons_to_dashes(s: Seq<char>) -> Seq<char> {
    s.map_values(|c: char| if c == ':' { '-' } else { c })
}

/// Relies on `str::replace` with a one-character pattern and replacement,
/// which replaces each occurrence of the pattern.
#[verifier::external_body]
pub(crate) fn replace_colons(s: &str) -> (r: String)
    ensures
        r@ == colons_to_dashes(s@),
{
    s.replace(":", "-")
}

/// Relies on uuid's `Uuid::new_v4` and its `Display`, which writes the
/// hyphenated lower-case form of 36 characters. The value is random.
#[verifier::external_body]
pub(crate) fn new_session_token() -> (r: String)
    ensures
        r@.len() == 36,
{
    uuid::Uuid::new_v4().to_string()
}

/// What `str::to_lowercase` returns for a text.
pub uninterp spec fn lower_of(s: Seq<char>) -> Seq<char>;

/// Relies on `str::to_lowercase`: the lower-case form of a text, which
/// depends on the text alone.
#[verifier::external_body]
pub(crate) fn lowercased(s: &str) -> (r: String)
    ensures
        r@ == lower_of(s@),
{
    s.to_lowercase()
}

/// What `str::to_uppercase` returns for a text.
pub uninterp spec fn upper_of(s: Seq<char>) -> Seq<char>;

/// Relies on `str::to_uppercase`: the upper-case form of a text, which
/// depends on the text alone.
#[verifier::external_body]
pub(crate) fn uppercased(s: &str) -> (r: String)
    ensures
        r@ == upper_of(s@),
{
    s.to_uppercase()
}

/// What bcrypt's `verify` returns for a password and a stored hash: whether
/// they match, or nothing when the hash is malformed.
pub uninterp spec fn bcrypt_verify_of(password: Seq<char>, hash: Seq<char>) -> Option<bool>;

/// Relies on bcrypt's `verify`, whose answer depends on the password and the
/// hash alone; its error becomes `None`.
#[verifier::external_body]
pub(crate) fn password_matches(password: &str, hash: &str) -> (r: Option<bool>)
    ensures
        r == bcrypt_verify_of(password@, hash@),
{
    bcrypt::verify(password, hash).ok()
}

/// Relies on bcrypt's `hash` at its default cost. The salt is random, so
/// nothing is promised of the text; its error becomes `None`.
#[verifier::external_body]
pub(crate) fn hash_password(password: &str) -> (r: Option<String>) {
    bcrypt::hash(password, bcrypt::DEFAULT_COST).ok()
}

} // verus!
