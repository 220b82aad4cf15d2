use vstd::prelude::*;
use vstd::string::StrSliceExecFns;
use vstd::string::StringExecFns;

verus! {

/// The deployment contexts a flag can be scoped to.
#[derive(Clone, Copy, Debug, PartialEq, Eq, Structural, Hash)]
pub enum Environment {
    Dev,
    Staging,
    Prod,
}

/// Whether `c` is the lowercase letter `lower`, or its ASCII uppercase form.
pub open spec fn same_ignoring_ascii_case(c: char, lower: char) -> bool {
    c == lower || ('a' <= lower <= 'z' && c as u32 + 32 == lower as u32)
}

/// Whether `text` spells `lower` (a lowercase word) with ASCII case ignored.
pub open spec fn spells_ignoring_case(text: Seq<char>, lower: Seq<char>) -> bool {
    &&& text.len() == lower.len()
    &&& forall|i: int| 0 <= i < text.len() ==> same_ignoring_ascii_case(#[trigger] text[i], lower[i])
}

/// The environment that `text` names, with ASCII case ignored.
pub open spec fn environment_named(text: Seq<char>) -> Option<Environment> {
    if spells_ignoring_case(text, Environment::Dev.name()) {
        Some(Environment::Dev)
    } else if spells_ignoring_case(text, Environment::Staging.name()) {
        Some(Environment::Staging)
    } else if spells_ignoring_case(text, Environment::Prod.name()) {
        Some(Environment::Prod)
    } else {
        None
    }
}

/// Whether `text` spells the lowercase `word`, with ASCII case ignored.
fn spells_word(text: &str, word: &str) -> (r: bool)
    ensures
        r == spells_ignoring_case(text@, word@),
{
    let n = text.unicode_len();
    if n != word.unicode_len() {
        return false;
    }
    let mut i: usize = 0;
    while i < n
        invariant
            n == text@.len(),
            n == word@.len(),
            i <= n,
            forall|j: int| 0 <= j < i ==> same_ignoring_ascii_case(#[trigger] text@[j], word@[j]),
        decreases n - i,
    {
        let c = text.get_char(i);
        let lower = word.get_char(i);
        let same = c == lower || ('a' <= lower && lower <= 'z' && c as u32 + 32 == lower as u32);
        if !same {
            return false;
        }
        i = i + 1;
    }
    true
}

impl Environment {
    /// The lowercase name of the environment.
    pub open spec fn name(self) -> Seq<char> {
        match self {
            Environment::Dev => seq!['d', 'e', 'v'],
            Environment::Staging => seq!['s', 't', 'a', 'g', 'i', 'n', 'g'],
            Environment::Prod => seq!['p', 'r', 'o', 'd'],
        }
    }

    /// The lowercase name of the environment, as used on the wire.
    pub fn as_str(&self) -> (r: &'static str)
        ensures
            r@ == self.name(),
    {
        match self {
            Environment::Dev => {
                proof { reveal_strlit("dev"); }
                "dev"
            },
            Environment::Staging => {
                proof { reveal_strlit("staging"); }
                "staging"
            },
            Environment::Prod => {
                proof { reveal_strlit("prod"); }
                "prod"
            },
        }
    }

    /// Reads an environment from its name; ASCII case does not matter. Other
    /// text is refused with a message that quotes it.
    pub fn parse(text: &str) -> (r: Result<Environment, String>)
        ensures
            environment_named(text@) matches Some(e) ==> r == Ok::<Environment, String>(e),
            environment_named(text@) is None ==> (r matches Err(m) && m@ == "unsupported environment: "@ + text@),
    {
        if spells_word(text, Environment::Dev.as_str()) {
            Ok(Environment::Dev)
        } else if spells_word(text, Environment::Staging.as_str()) {
            Ok(Environment::Staging)
        } else if spells_word(text, Environment::Prod.as_str()) {
            Ok(Environment::Prod)
        } else {
            let mut message = String::from_str("unsupported environment: ");
            message.append(text);
            Err(message)
        }
    }
}

/// Whether `c` has Unicode's White_Space property: the controls U+0009 to U+000D
/// and U+0085, and the spaces and separators listed here.
pub open spec fn white_space(c: char) -> bool {
    let u = c as u32;
    (0x09 <= u <= 0x0D) || u == 0x20 || u == 0x85 || u == 0xA0 || u == 0x1680 || (0x2000 <= u <= 0x200A)
        || u == 0x2028 || u == 0x2029 || u == 0x202F || u == 0x205F || u == 0x3000
}

/// Whether `c` is whitespace in Unicode's sense, as `char::is_whitespace` and
/// `str::trim` take it.
pub fn char_is_whitespace(c: char) -> (r: bool)
    ensures
        r == white_space(c),
{
    let u = c as u32;
    (0x09 <= u && u <= 0x0D) || u == 0x20 || u == 0x85 || u == 0xA0 || u == 0x1680 || (0x2000 <= u && u
        <= 0x200A) || u == 0x2028 || u == 0x2029 || u == 0x202F || u == 0x205F || u == 0x3000
}

/// Whether `s` is empty once leading and trailing whitespace is trimmed,
/// that is, whether every character of it is whitespace.
pub open spec fn is_blank(s: Seq<char>) -> bool {
    forall|i: int| 0 <= i < s.len() ==> white_space(#[trigger] s[i])
}

/// Whether a flag key is blank: empty, or whitespace only.
pub fn key_is_blank(key: &str) -> (r: bool)
    ensures
        r == is_blank(key@),
{
    let n = key.unicode_len();
    let mut i: usize = 0;
    while i < n
        invariant
            n == key@.len(),
            i <= n,
            forall|j: int| 0 <= j < i ==> white_space(#[trigger] key@[j]),
        decreases n - i,
    {
        if !char_is_whitespace(key.get_char(i)) {
            return false;
        }
        i = i + 1;
    }
    true
}

/// What a flag is, in the contracts: its key as characters, its state and its environment.
pub struct FlagModel {
    pub key: Seq<char>,
    pub enabled: bool,
    pub environment: Environment,
}

/// A named boolean toggle scoped to one environment.
#[derive(Clone, Debug, PartialEq, Eq)]
pub struct FeatureFlag {
    pub key: String,
    pub enabled: bool,
    pub environment: Environment,
}

impl View for FeatureFlag {
    type V = FlagModel;

    open spec fn view(&self) -> FlagModel {
        FlagModel { key: self.key@, enabled: self.enabled, environment: self.environment }
    }
}

impl FeatureFlag {
    pub fn new(key: String, enabled: bool, environment: Environment) -> (r: FeatureFlag)
        ensures
            r.key == key,
            r.enabled == enabled,
            r.environment == environment,
    {
        FeatureFlag { key, enabled, environment }
    }

    /// An equal copy of the flag.
    pub fn duplicate(&self) -> (r: FeatureFlag)
        ensures
            r@ == self@,
    {
        FeatureFlag { key: self.key.clone(), enabled: self.enabled, environment: self.environment }
    }
}

/// What can go wrong when setting a flag.
#[derive(Debug)]
pub enum DomainError {
    EmptyKey,
    DuplicateKey { key: String, environment: Environment },
}

impl DomainError {
    /// The human-readable text of the error.
    pub open spec fn text(&self) -> Seq<char> {
        match self {
            DomainError::EmptyKey => "feature flag key cannot be empty"@,
            DomainError::DuplicateKey { key, environment } => "feature flag key '"@ + key@
                + "' already exists in environment '"@ + environment.name() + "'"@,
        }
    }

    /// The human-readable text of the error.
    pub fn message(&self) -> (r: String)
        ensures
            r@ == self.text(),
    {
        match self {
            DomainError::EmptyKey => String::from_str("feature flag key cannot be empty"),
            DomainError::DuplicateKey { key, environment } => {
                let mut text = String::from_str("feature flag key '");
                text.append(key.as_str());
                text.append("' already exists in environment '");
                text.append(environment.as_str());
                text.append("'");
                text
            },
        }
    }
}

} // verus!
