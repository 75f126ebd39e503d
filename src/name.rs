use vstd::prelude::*;
use vstd::string::StrSliceExecFns;

verus! {

/// Fewest characters a campaign name may have once trimmed.
pub const NAME_MIN_CHARS: usize = 5;

/// Most characters a campaign name may have once trimmed.
pub const NAME_MAX_CHARS: usize = 30;

/// A character of Unicode's White_Space property, which `char::is_whitespace`
/// and so `str::trim` go by.
pub open spec fn is_white_space(c: char) -> bool {
    ('\u{9}' <= c <= '\u{d}') || c == ' ' || c == '\u{85}' || c == '\u{a0}' || c == '\u{1680}'
        || ('\u{2000}' <= c <= '\u{200a}') || c == '\u{2028}' || c == '\u{2029}' || c
        == '\u{202f}' || c == '\u{205f}' || c == '\u{3000}'
}

/// `s` without its leading white space.
pub open spec fn trim_start_of(s: Seq<char>) -> Seq<char>
    decreases s.len(),
{
    if s.len() > 0 && is_white_space(s[0]) {
        trim_start_of(s.drop_first())
    } else {
        s
    }
}

/// `s` without its trailing white space.
pub open spec fn trim_end_of(s: Seq<char>) -> Seq<char>
    decreases s.len(),
{
    if s.len() > 0 && is_white_space(s.last()) {
        trim_end_of(s.drop_last())
    } else {
        s
    }
}

/// What `str::trim` returns: the characters without leading and trailing
/// white space.
pub open spec fn trim_of(s: Seq<char>) -> Seq<char> {
    trim_end_of(trim_start_of(s))
}

/// Relies on `str::trim`: removes leading and trailing White_Space.
#[verifier::external_body]
fn trim_str(s: &str) -> (r: &str)
    ensures
        r@ == trim_of(s@),
{
    s.trim()
}

/// Why a candidate campaign name was refused.
#[derive(Debug, Clone, Copy, PartialEq, Eq, Structural)]
pub enum ValidationError {
    TooShort,
    TooLong,
    NotAscii,
}

/// Every character of `s` is ASCII.
pub open spec fn all_ascii(s: Seq<char>) -> bool {
    vstd::utf8::is_ascii_chars(s)
}

/// The outcome of validating an already trimmed name: length bounds first,
/// then the ASCII rule.
pub open spec fn validate_spec(t: Seq<char>) -> Result<Seq<char>, ValidationError> {
    if t.len() < NAME_MIN_CHARS {
        Err(ValidationError::TooShort)
    } else if t.len() > NAME_MAX_CHARS {
        Err(ValidationError::TooLong)
    } else if !all_ascii(t) {
        Err(ValidationError::NotAscii)
    } else {
        Ok(t)
    }
}

/// A validated campaign display name: trimmed, 5 to 30 characters, ASCII.
pub struct CampaignName {
    text: String,
}

impl View for CampaignName {
    type V = Seq<char>;

    closed spec fn view(&self) -> Seq<char> {
        self.text@
    }
}

impl CampaignName {
    /// Checks text that has already been trimmed against the length and
    /// ASCII rules.
    pub fn validate_trimmed(t: &str) -> (r: Result<(), ValidationError>)
        ensures
            match (r, validate_spec(t@)) {
                (Ok(_), Ok(_)) => true,
                (Err(e), Err(f)) => e == f,
                _ => false,
            },
    {
        let len = t.unicode_len();
        if len < NAME_MIN_CHARS {
            return Err(ValidationError::TooShort);
        }
        if len > NAME_MAX_CHARS {
            return Err(ValidationError::TooLong);
        }
        if !t.is_ascii() {
            return Err(ValidationError::NotAscii);
        }
        Ok(())
    }

    /// Trims `raw` and validates what is left.
    pub fn new(raw: &str) -> (r: Result<CampaignName, ValidationError>)
        ensures
            match (r, validate_spec(trim_of(raw@))) {
                (Ok(n), Ok(s)) => n@ == s,
                (Err(e), Err(f)) => e == f,
                _ => false,
            },
    {
        let t = trim_str(raw);
        match CampaignName::validate_trimmed(t) {
            Ok(()) => Ok(CampaignName { text: t.to_owned() }),
            Err(e) => Err(e),
        }
    }

    pub fn as_str(&self) -> (r: &str)
        ensures
            r@ == self@,
    {
        self.text.as_str()
    }

    /// A second name with the same text.
    pub fn duplicate(&self) -> (r: CampaignName)
        ensures
            r@ == self@,
    {
        CampaignName { text: self.text.clone() }
    }
}

} // verus!
