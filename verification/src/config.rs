//! The configuration surface the core consumes: target dialect, export
//! rename rules, member rename rules, and the include and exclude lists.

use vstd::prelude::*;
use vstd::utf8::is_ascii_chars;

verus! {

/// The target header dialect: one with generics (templates) or one without.
#[derive(Debug, Clone, Copy, PartialEq, Eq, Structural)]
pub enum Language {
    C,
    Cxx,
}

/// A member rename convention, applied to snake_case member names.
#[derive(Debug, Clone, Copy, PartialEq, Eq, Structural)]
pub enum RenameRule {
    /// Leave members as written.
    Keep,
    /// Lower case: the identity on snake_case input.
    LowerCase,
    /// Every ASCII letter upper-cased, underscores kept.
    UpperCase,
    /// On snake_case input, the same spelling as `UpperCase`.
    ScreamingSnakeCase,
}

/// One character upper-cased, ASCII letters only.
pub open spec fn upcase_char(c: char) -> char {
    if 'a' <= c && c <= 'z' {
        (((c as u8) - 32) as char)
    } else {
        c
    }
}

/// A character sequence upper-cased, ASCII letters only.
pub open spec fn upcased(s: Seq<char>) -> Seq<char> {
    s.map_values(|c: char| upcase_char(c))
}

impl RenameRule {
    /// What applying this rule to a snake_case member name yields. A name
    /// that is not pure ASCII is left as written.
    pub open spec fn applied(self, s: Seq<char>) -> Seq<char> {
        match self {
            RenameRule::Keep => s,
            RenameRule::LowerCase => s,
            RenameRule::UpperCase => if is_ascii_chars(s) {
                upcased(s)
            } else {
                s
            },
            RenameRule::ScreamingSnakeCase => if is_ascii_chars(s) {
                upcased(s)
            } else {
                s
            },
        }
    }

    /// Applies this rule to a member name.
    pub fn apply(self, s: &String) -> (r: String)
        ensures
            r@ == self.applied(s@),
    {
        match self {
            RenameRule::Keep => s.clone(),
            RenameRule::LowerCase => s.clone(),
            RenameRule::UpperCase => ascii_upcase(s),
            RenameRule::ScreamingSnakeCase => ascii_upcase(s),
        }
    }
}

/// The upper-case spelling of one ASCII lower-case letter.
fn upcase_str(c: char) -> (r: &'static str)
    requires
        'a' <= c && c <= 'z',
    ensures
        r@ =~= seq![upcase_char(c)],
{
    proof {
        reveal_strlit("A");
        reveal_strlit("B");
        reveal_strlit("C");
        reveal_strlit("D");
        reveal_strlit("E");
        reveal_strlit("F");
        reveal_strlit("G");
        reveal_strlit("H");
        reveal_strlit("I");
        reveal_strlit("J");
        reveal_strlit("K");
        reveal_strlit("L");
        reveal_strlit("M");
        reveal_strlit("N");
        reveal_strlit("O");
        reveal_strlit("P");
        reveal_strlit("Q");
        reveal_strlit("R");
        reveal_strlit("S");
        reveal_strlit("T");
        reveal_strlit("U");
        reveal_strlit("V");
        reveal_strlit("W");
        reveal_strlit("X");
        reveal_strlit("Y");
        reveal_strlit("Z");
    }
    match c {
        'a' => "A",
        'b' => "B",
        'c' => "C",
        'd' => "D",
        'e' => "E",
        'f' => "F",
        'g' => "G",
        'h' => "H",
        'i' => "I",
        'j' => "J",
        'k' => "K",
        'l' => "L",
        'm' => "M",
        'n' => "N",
        'o' => "O",
        'p' => "P",
        'q' => "Q",
        'r' => "R",
        's' => "S",
        't' => "T",
        'u' => "U",
        'v' => "V",
        'w' => "W",
        'x' => "X",
        'y' => "Y",
        'z' => "Z",
        _ => {
            proof {
                assert(false);
            }
            ""
        }
    }
}

/// Upper-cases every ASCII letter of `s`; a name that is not pure ASCII is
/// returned as written.
pub fn ascii_upcase(s: &String) -> (r: String)
    ensures
        r@ == (if is_ascii_chars(s@) {
            upcased(s@)
        } else {
            s@
        }),
{
    if !s.as_str().is_ascii() {
        return s.clone();
    }
    let n = s.as_str().unicode_len();
    let mut r = String::new();
    let mut i: usize = 0;
    while i < n
        invariant
            i <= n,
            n == s@.len(),
            is_ascii_chars(s@),
            r@.len() == i as int,
            forall|k: int| 0 <= k < i ==> r@[k] == upcase_char(#[trigger] s@[k]),
        decreases n - i,
    {
        let c = s.as_str().get_char(i);
        let cu = c as u32;
        if 97 <= cu && cu <= 122 {
            let ghost before = r@;
            r.append(upcase_str(c));
            proof {
                assert(r@ =~= before.push(upcase_char(c)));
            }
        } else {
            let ghost before = r@;
            let piece = s.as_str().substring_ascii(i, i + 1);
            r.append(piece);
            proof {
                assert(piece@ =~= seq![s@[i as int]]);
                assert(r@ =~= before.push(s@[i as int]));
                assert(upcase_char(s@[i as int]) == s@[i as int]);
            }
        }
        i = i + 1;
    }
    proof {
        assert(r@ =~= upcased(s@));
    }
    r
}

/// The member rename rule named `s`, if recognized.
pub open spec fn parsed_rule(s: Seq<char>) -> Option<RenameRule> {
    if s == "none"@ {
        Some(RenameRule::Keep)
    } else if s == "lowercase"@ {
        Some(RenameRule::LowerCase)
    } else if s == "uppercase"@ {
        Some(RenameRule::UpperCase)
    } else if s == "screaming_snake_case"@ {
        Some(RenameRule::ScreamingSnakeCase)
    } else {
        None
    }
}

/// Parses a member rename rule name.
pub fn parse_rename_rule(s: &String) -> (r: Option<RenameRule>)
    ensures
        r == parsed_rule(s@),
{
    let none_name = String::from_str("none");
    let lower = String::from_str("lowercase");
    let upper = String::from_str("uppercase");
    let screaming = String::from_str("screaming_snake_case");
    if crate::name_eq(s, &none_name) {
        Some(RenameRule::Keep)
    } else if crate::name_eq(s, &lower) {
        Some(RenameRule::LowerCase)
    } else if crate::name_eq(s, &upper) {
        Some(RenameRule::UpperCase)
    } else if crate::name_eq(s, &screaming) {
        proof {
            reveal_strlit("none");
            reveal_strlit("lowercase");
            reveal_strlit("uppercase");
            reveal_strlit("screaming_snake_case");
        }
        Some(RenameRule::ScreamingSnakeCase)
    } else {
        None
    }
}

/// What the configuration exports and hides: names always emitted even when
/// unreferenced, names removed from every category, and the export rename
/// map applied to top-level declaration names.
#[derive(Debug)]
pub struct ExportConfig {
    pub included: Vec<String>,
    pub exclude: Vec<String>,
    pub rename: Vec<(String, String)>,
}

/// Member naming options.
#[derive(Debug)]
pub struct StructureConfig {
    pub rename_fields: Option<RenameRule>,
}

/// The configuration the core consumes.
#[derive(Debug)]
pub struct Config {
    pub language: Language,
    pub export: ExportConfig,
    pub structure: StructureConfig,
}

impl Config {
    /// A configuration that names nothing: no renames, no extra names, no
    /// removals.
    pub fn new(language: Language) -> (r: Config)
        ensures
            r.language == language,
            r.export.included@.len() == 0,
            r.export.exclude@.len() == 0,
            r.export.rename@.len() == 0,
            r.structure.rename_fields is None,
    {
        Config {
            language,
            export: ExportConfig {
                included: Vec::new(),
                exclude: Vec::new(),
                rename: Vec::new(),
            },
            structure: StructureConfig { rename_fields: None },
        }
    }
}

} // verus!
