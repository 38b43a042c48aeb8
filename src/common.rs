//! The data model shared by the scorers: news items, their pipeline errors and
//! the opt-in operator.
use vstd::prelude::*;
use crate::text::{chars_of, contains_chars, contains_seq};
use vstd::string::StringExecFns;

verus! {

/// How a list of opt-in terms is matched against an item.
#[derive(Debug, Clone, Copy, PartialEq, Eq, Structural)]
pub enum Operator {
    /// Every term must be found.
    AND,
    /// At least one term must be found.
    OR,
}

/// The publishers whose pages get dedicated content extraction.
#[derive(Debug, Clone, Copy, PartialEq, Eq, Structural)]
pub enum ChannelType {
    ElPais,
    VeinteMinutos,
    ElDiario,
    ElMundo,
    Other,
}

/// A terminal error recorded on an item by the fetch and cleaning stages.
#[derive(Debug, Clone)]
pub enum PipelineError {
    EmptyString,
    ParsingError(String),
    NoContent,
    NetworkError(String),
    UnknownError,
}

/// The mathematical value of a `PipelineError`.
pub enum ErrorForm {
    EmptyString,
    ParsingError(Seq<char>),
    NoContent,
    NetworkError(Seq<char>),
    UnknownError,
}

impl View for PipelineError {
    type V = ErrorForm;

    open spec fn view(&self) -> ErrorForm {
        match self {
            PipelineError::EmptyString => ErrorForm::EmptyString,
            PipelineError::ParsingError(m) => ErrorForm::ParsingError(m@),
            PipelineError::NoContent => ErrorForm::NoContent,
            PipelineError::NetworkError(m) => ErrorForm::NetworkError(m@),
            PipelineError::UnknownError => ErrorForm::UnknownError,
        }
    }
}

impl PartialEq for PipelineError {
    fn eq(&self, other: &PipelineError) -> (r: bool) {
        match (self, other) {
            (PipelineError::EmptyString, PipelineError::EmptyString) => true,
            (PipelineError::ParsingError(a), PipelineError::ParsingError(b)) => a.eq(b),
            (PipelineError::NoContent, PipelineError::NoContent) => true,
            (PipelineError::NetworkError(a), PipelineError::NetworkError(b)) => a.eq(b),
            (PipelineError::UnknownError, PipelineError::UnknownError) => true,
            _ => false,
        }
    }
}

impl vstd::std_specs::cmp::PartialEqSpecImpl for PipelineError {
    open spec fn obeys_eq_spec() -> bool {
        true
    }

    open spec fn eq_spec(&self, other: &PipelineError) -> bool {
        self@ == other@
    }
}

/// The variant name of an error.
pub open spec fn variant_name(e: ErrorForm) -> Seq<char> {
    match e {
        ErrorForm::EmptyString => "EmptyString"@,
        ErrorForm::ParsingError(_) => "ParsingError"@,
        ErrorForm::NoContent => "NoContent"@,
        ErrorForm::NetworkError(_) => "NetworkError"@,
        ErrorForm::UnknownError => "UnknownError"@,
    }
}

/// The canonical text of an error: its variant name, followed by its detail
/// in parentheses for the variants that carry one (`ParsingError(xyz)`).
pub open spec fn canonical(e: ErrorForm) -> Seq<char> {
    match e {
        ErrorForm::ParsingError(m) => "ParsingError("@ + m + ")"@,
        ErrorForm::NetworkError(m) => "NetworkError("@ + m + ")"@,
        _ => variant_name(e),
    }
}

/// Whether `s` is `prefix`, then anything, then a closing parenthesis.
pub open spec fn is_wrapped(s: Seq<char>, prefix: Seq<char>) -> bool {
    s.len() >= prefix.len() + 1 && s.subrange(0, prefix.len() as int) == prefix && s.last() == ')'
}

/// What lies between `prefix` and the closing parenthesis of `s`.
pub open spec fn unwrapped(s: Seq<char>, prefix: Seq<char>) -> Seq<char> {
    s.subrange(prefix.len() as int, s.len() - 1)
}

/// The error whose canonical text is `s`, if any.
pub open spec fn decode(s: Seq<char>) -> Option<ErrorForm> {
    if s == "EmptyString"@ {
        Some(ErrorForm::EmptyString)
    } else if s == "NoContent"@ {
        Some(ErrorForm::NoContent)
    } else if s == "UnknownError"@ {
        Some(ErrorForm::UnknownError)
    } else if is_wrapped(s, "ParsingError("@) {
        Some(ErrorForm::ParsingError(unwrapped(s, "ParsingError("@)))
    } else if is_wrapped(s, "NetworkError("@) {
        Some(ErrorForm::NetworkError(unwrapped(s, "NetworkError("@)))
    } else {
        None
    }
}

/// A `String` holding the characters of `s`.
fn text_of(s: &str) -> (r: String)
    ensures
        r@ == s@,
{
    String::from_str(s)
}

/// Whether `s` is `prefix`, then anything, then a closing parenthesis.
fn wrapped_in(s: &Vec<char>, prefix: &str) -> (r: bool)
    ensures
        r == is_wrapped(s@, prefix@),
{
    let p = chars_of(prefix);
    if s.len() <= p.len() {
        return false;
    }
    let mut i: usize = 0;
    while i < p.len()
        invariant
            p@ == prefix@,
            s@.len() >= p@.len() + 1,
            i <= p@.len(),
            forall|j: int| 0 <= j < i ==> s@[j] == p@[j],
        decreases p@.len() - i,
    {
        if s[i] != p[i] {
            assert(s@.subrange(0, p@.len() as int)[i as int] != p@[i as int]);
            return false;
        }
        i += 1;
    }
    assert(s@.subrange(0, p@.len() as int) =~= p@);
    s[s.len() - 1] == ')'
}

/// Whether `cs` holds exactly the characters of `lit`.
fn is_text(cs: &Vec<char>, lit: &str) -> (r: bool)
    ensures
        r == (cs@ == lit@),
{
    let l = chars_of(lit);
    if cs.len() != l.len() {
        return false;
    }
    let mut i: usize = 0;
    while i < cs.len()
        invariant
            l@ == lit@,
            cs@.len() == l@.len(),
            i <= cs@.len(),
            forall|j: int| 0 <= j < i ==> cs@[j] == l@[j],
        decreases cs@.len() - i,
    {
        if cs[i] != l[i] {
            return false;
        }
        i += 1;
    }
    assert(cs@ =~= l@);
    true
}

/// The characters of `s` from `from` up to, not including, `to`, as a `String`.
fn text_between(s: &str, from: usize, to: usize) -> (r: String)
    requires
        from <= to <= s@.len(),
    ensures
        r@ == s@.subrange(from as int, to as int),
{
    let part = s.substring_char(from, to);
    String::from_str(part)
}

impl PipelineError {
    /// The variant name of the error.
    pub fn as_str(&self) -> (r: &str)
        ensures
            r@ == variant_name(self@),
    {
        match self {
            PipelineError::EmptyString => "EmptyString",
            PipelineError::ParsingError(_) => "ParsingError",
            PipelineError::NoContent => "NoContent",
            PipelineError::NetworkError(_) => "NetworkError",
            PipelineError::UnknownError => "UnknownError",
        }
    }

    /// The canonical text of the error, from which `parse` rebuilds it.
    pub fn as_string(&self) -> (r: String)
        ensures
            r@ == canonical(self@),
    {
        match self {
            PipelineError::ParsingError(m) => {
                let mut s = text_of("ParsingError(");
                s.append(m.as_str());
                s.append(")");
                s
            },
            PipelineError::NetworkError(m) => {
                let mut s = text_of("NetworkError(");
                s.append(m.as_str());
                s.append(")");
                s
            },
            _ => text_of(self.as_str()),
        }
    }

    /// The error whose canonical text is `s`; `None` where `s` is no such text.
    pub fn parse(s: &str) -> (r: Option<PipelineError>)
        ensures
            match r {
                Some(e) => decode(s@) == Some(e@),
                None => decode(s@) is None,
            },
    {
        let cs = chars_of(s);
        let n = cs.len();
        if is_text(&cs, "EmptyString") {
            Some(PipelineError::EmptyString)
        } else if is_text(&cs, "NoContent") {
            Some(PipelineError::NoContent)
        } else if is_text(&cs, "UnknownError") {
            Some(PipelineError::UnknownError)
        } else if wrapped_in(&cs, "ParsingError(") {
            proof {
                reveal_strlit("ParsingError(");
            }
            Some(PipelineError::ParsingError(text_between(s, 13, n - 1)))
        } else if wrapped_in(&cs, "NetworkError(") {
            proof {
                reveal_strlit("NetworkError(");
            }
            Some(PipelineError::NetworkError(text_between(s, 13, n - 1)))
        } else {
            None
        }
    }
}

/// The error recorded by a stored error column: none where the column is
/// empty or says `None`, else the error its text decodes to, or
/// `UnknownError` where it decodes to none.
pub fn error_from_column(text: Option<String>) -> (r: Option<PipelineError>)
    ensures
        match text {
            None => r is None,
            Some(t) => if t@ == "None"@ {
                r is None
            } else {
                match decode(t@) {
                    Some(f) => r matches Some(e) && e@ == f,
                    None => r == Some(PipelineError::UnknownError),
                }
            },
        },
{
    match text {
        None => None,
        Some(t) => {
            let cs = chars_of(t.as_str());
            if is_text(&cs, "None") {
                None
            } else {
                match PipelineError::parse(t.as_str()) {
                    Some(e) => Some(e),
                    None => Some(PipelineError::UnknownError),
                }
            }
        },
    }
}

/// The canonical text of every error decodes back to that same error,
/// variant and detail alike.
pub proof fn lemma_error_text_round_trip(e: PipelineError)
    ensures
        decode(canonical(e@)) == Some(e@),
{
    reveal_strlit("EmptyString");
    reveal_strlit("NoContent");
    reveal_strlit("UnknownError");
    reveal_strlit("ParsingError(");
    reveal_strlit("NetworkError(");
    reveal_strlit(")");
    let s = canonical(e@);
    match e@ {
        ErrorForm::ParsingError(m) => {
            assert(s[0] == 'P');
            assert(s != "EmptyString"@ && s != "NoContent"@ && s != "UnknownError"@) by {
                assert("EmptyString"@[0] == 'E');
                assert("NoContent"@[0] == 'N');
                assert("UnknownError"@[0] == 'U');
            }
            assert(s.subrange(0, 13) =~= "ParsingError("@);
            assert(unwrapped(s, "ParsingError("@) =~= m);
        },
        ErrorForm::NetworkError(m) => {
            assert(s[0] == 'N');
            assert(s != "EmptyString"@ && s != "NoContent"@ && s != "UnknownError"@) by {
                assert("EmptyString"@[0] == 'E');
                assert("NoContent"@[1] == 'o');
                assert(s[1] == 'e');
                assert("UnknownError"@[0] == 'U');
            }
            assert(s.subrange(0, 13) != "ParsingError("@) by {
                assert(s.subrange(0, 13)[0] == 'N');
            }
            assert(s.subrange(0, 13) =~= "NetworkError("@);
            assert(unwrapped(s, "NetworkError("@) =~= m);
        },
        ErrorForm::NoContent => {
            assert(s != "EmptyString"@) by {
                assert(s[0] == 'N');
            }
        },
        ErrorForm::UnknownError => {
            assert(s != "EmptyString"@) by {
                assert(s[0] == 'U');
            }
            assert(s != "NoContent"@) by {
                assert(s[0] == 'U');
            }
        },
        ErrorForm::EmptyString => {},
    }
}

/// A news item, as fetched from a feed and enriched by the later stages.
///
/// `relevance` is a fixed-point score, absent until the item is scored:
/// lexical scores are whole points, feedback scores are in thousandths of the
/// rating scale.
#[derive(Debug, Clone)]
pub struct NewsItem {
    pub channel: String,
    pub title: String,
    pub link: String,
    pub description: String,
    pub creators: String,
    pub pub_date: Option<String>,
    pub categories: Option<String>,
    pub keywords: Option<String>,
    pub clean_content: Option<String>,
    pub error: Option<PipelineError>,
    pub relevance: Option<u64>,
}

/// The upper-case form of a text, as `str::to_uppercase` gives it.
pub uninterp spec fn upper_of(s: Seq<char>) -> Seq<char>;

/// Relies on `str::to_uppercase`: the Unicode upper-case mapping of the text,
/// which depends on the text alone.
#[verifier::external_body]
fn to_upper(s: &str) -> (r: String)
    ensures
        r@ == upper_of(s@),
{
    s.to_uppercase()
}

/// The publisher named by an upper-case channel title.
pub open spec fn channel_type_of(upper: Seq<char>) -> ChannelType {
    if contains_seq(upper, "EL PAÍS"@) {
        ChannelType::ElPais
    } else if contains_seq(upper, "20MINUTOS"@) {
        ChannelType::VeinteMinutos
    } else if contains_seq(upper, "ELDIARIO.ES"@) {
        ChannelType::ElDiario
    } else if contains_seq(upper, "ELMUNDO"@) {
        ChannelType::ElMundo
    } else {
        ChannelType::Other
    }
}

/// The publisher named by a channel title that is already in upper case.
pub fn channel_type_of_upper(upper: &str) -> (r: ChannelType)
    ensures
        r == channel_type_of(upper@),
{
    let u = chars_of(upper);
    if contains_chars(&u, &chars_of("EL PAÍS")) {
        ChannelType::ElPais
    } else if contains_chars(&u, &chars_of("20MINUTOS")) {
        ChannelType::VeinteMinutos
    } else if contains_chars(&u, &chars_of("ELDIARIO.ES")) {
        ChannelType::ElDiario
    } else if contains_chars(&u, &chars_of("ELMUNDO")) {
        ChannelType::ElMundo
    } else {
        ChannelType::Other
    }
}

/// The publisher named by a channel title, whatever its case.
pub fn get_channel_type(channel: &str) -> (r: ChannelType)
    ensures
        r == channel_type_of(upper_of(channel@)),
{
    let upper = to_upper(channel);
    channel_type_of_upper(upper.as_str())
}

} // verus!
