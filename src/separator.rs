use vstd::prelude::*;

verus! {

/// The error of parsing a separator. Every string names some separator, so
/// parsing never returns it.
#[derive(PartialEq, Debug, Clone)]
pub struct KeyValueParseError;

/// What joins a key to its value in the output: a tab, a colon and a space,
/// or any string.
#[derive(PartialEq, Eq, Debug, Hash, Clone)]
pub enum KeyValueSep {
    Tab,
    Colon,
    Other(String),
}

impl KeyValueSep {
    /// The text written between a key and its value.
    pub open spec fn sep_text(&self) -> Seq<char> {
        match self {
            KeyValueSep::Tab => seq!['\t'],
            KeyValueSep::Colon => seq![':', ' '],
            KeyValueSep::Other(s) => s@,
        }
    }

    /// Whether this is the separator that the name `s` selects: `tab`,
    /// `colon`, or else the name itself, taken literally.
    pub open spec fn selected_by(&self, s: Seq<char>) -> bool {
        if s == "tab"@ {
            self is Tab
        } else if s == "colon"@ {
            self is Colon
        } else {
            &&& self is Other
            &&& self->Other_0@ == s
        }
    }

    pub fn get_sep(&self) -> (r: &str)
        ensures
            r@ == self.sep_text(),
    {
        match self {
            KeyValueSep::Tab => {
                proof {
                    reveal_strlit("\t");
                }
                "\t"
            },
            KeyValueSep::Colon => {
                proof {
                    reveal_strlit(": ");
                }
                ": "
            },
            KeyValueSep::Other(s) => s.as_str(),
        }
    }

    /// The separator as text, as it is written between keys and values.
    pub fn to_string(&self) -> (r: String)
        ensures
            r@ == self.sep_text(),
    {
        String::from_str(self.get_sep())
    }

    /// Selects a separator by name; see `from_str`.
    pub fn parse(s: &str) -> (r: Result<KeyValueSep, KeyValueParseError>)
        ensures
            r is Ok,
            r->Ok_0.selected_by(s@),
    {
        let owned = String::from_str(s);
        if owned == String::from_str("tab") {
            Ok(KeyValueSep::Tab)
        } else if owned == String::from_str("colon") {
            Ok(KeyValueSep::Colon)
        } else {
            Ok(KeyValueSep::Other(owned))
        }
    }
}

impl Default for KeyValueSep {
    fn default() -> (r: KeyValueSep)
        ensures
            r is Colon,
    {
        KeyValueSep::Colon
    }
}

impl std::str::FromStr for KeyValueSep {
    type Err = KeyValueParseError;

    fn from_str(s: &str) -> (r: Result<KeyValueSep, KeyValueParseError>)
        ensures
            r is Ok,
            r->Ok_0.selected_by(s@),
    {
        KeyValueSep::parse(s)
    }
}

} // verus!
