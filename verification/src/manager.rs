//! The cheat-sheet manager: owns the fixed set of embedded reference
//! documents and composes the section parser, the tokenizer and the renderer
//! into the three display operations — a listing of every document's section
//! titles, one highlighted section, and one whole highlighted document.

use vstd::prelude::*;
use vstd::pervasive::unreached;

use crate::render::{
    format_header, format_header_model, format_error_model, highlight, render_model,
};
use crate::section::{parse_content, parse_model, SectionModel};
use crate::text::{
    is_digit_char, char_is_digit, is_digit_seq, digits_value, digit_val, dec_str, dec_string,
};
use crate::token::tokenize_model;

verus! {

/// The embedded documents, keyed by name.
pub const BASICS_DOC: &'static str = "# ----\n# 1. Variables\n# ----\nx = 5  # a number\nname = \"World\"\nready = True\n\n# ----\n# 2. Lists\n# ----\nitems = [1, 2, 3]\nitems.append(4)\nfirst = items[0]\n\n# ----\n# 3. Control flow\n# ----\nif x > 3:\n    print(name)\nelse:\n    pass\n";

pub const INTERMEDIATE_DOC: &'static str = "# ----\n# 1. Functions\n# ----\ndef add(a, b):\n    return a + b\n\n# ----\n# 2. Comprehensions\n# ----\nsquares = [n ** 2 for n in range(10)]\nevens = [n for n in squares if n % 2 == 0]\n\n# ----\n# 3. Strings\n# ----\ngreeting = \"Hello, \" + name\nshout = greeting.upper()\n";

pub const ADVANCED_DOC: &'static str = "# ----\n# 1. Classes\n# ----\nclass Point:\n    def __init__(self, x, y):\n        self.x = x\n        self.y = y\n\n# ----\n# 2. Generators\n# ----\ndef countdown(n):\n    while n > 0:\n        yield n\n        n -= 1\n\n# ----\n# 3. Exceptions\n# ----\ntry:\n    risky()\nexcept ValueError as err:\n    print(err)\nfinally:\n    done = True\n";

/// A name of the fixed known set of documents.
pub open spec fn known_doc(name: Seq<char>) -> bool {
    name == "Basics"@ || name == "Intermediate"@ || name == "Advanced"@
}

/// The text of a known document.
pub open spec fn doc_text(name: Seq<char>) -> Seq<char> {
    if name == "Basics"@ {
        BASICS_DOC@
    } else if name == "Intermediate"@ {
        INTERMEDIATE_DOC@
    } else {
        ADVANCED_DOC@
    }
}

/// Looks a document up by name in the fixed known set.
pub fn get_sheet_content(name: &str) -> (r: Option<&'static str>)
    ensures
        match r {
            Some(c) => known_doc(name@) && c@ == doc_text(name@),
            None => !known_doc(name@),
        },
{
    let u = name.to_owned();
    if u == String::from_str("Basics") {
        Some(BASICS_DOC)
    } else if u == String::from_str("Intermediate") {
        Some(INTERMEDIATE_DOC)
    } else if u == String::from_str("Advanced") {
        Some(ADVANCED_DOC)
    } else {
        None
    }
}

/// An error surfaced by the manager; every one is recoverable and terminal
/// for the current request.
#[derive(Clone, Copy, Debug, PartialEq, Eq, Structural)]
pub enum CheatError {
    /// The requested document name is not one of the fixed known set.
    UnknownDocument,
    /// The supplied section selector is not a run of decimal digits.
    InvalidSectionIndex,
    /// The selector is a number, but zero or past the last section.
    SectionIndexOutOfRange,
}

/// The user-facing message of each error.
pub open spec fn error_message(e: CheatError) -> Seq<char> {
    match e {
        CheatError::UnknownDocument => "Could not find sheet"@,
        CheatError::InvalidSectionIndex => "Section number must be a positive integer"@,
        CheatError::SectionIndexOutOfRange => "Invalid section number"@,
    }
}

impl CheatError {
    /// The user-facing message of this error.
    pub fn message(&self) -> (r: &'static str)
        ensures
            r@ == error_message(*self),
    {
        match self {
            CheatError::UnknownDocument => "Could not find sheet",
            CheatError::InvalidSectionIndex => "Section number must be a positive integer",
            CheatError::SectionIndexOutOfRange => "Invalid section number",
        }
    }
}

/// First document whose name matches, searching front to back.
pub open spec fn sheet_lookup(sheets: Seq<(Seq<char>, Seq<char>)>, name: Seq<char>) -> Option<
    Seq<char>,
>
    decreases sheets.len()
{
    if sheets.len() == 0 {
        None
    } else if sheets[0].0 == name {
        Some(sheets[0].1)
    } else {
        sheet_lookup(sheets.drop_first(), name)
    }
}

/// Owns the embedded documents and renders them on request.
pub struct CheatSheetManager {
    sheets: Vec<(String, String)>,
}

impl View for CheatSheetManager {
    type V = Seq<(Seq<char>, Seq<char>)>;

    closed spec fn view(&self) -> Seq<(Seq<char>, Seq<char>)> {
        self.sheets@.map_values(|p: (String, String)| (p.0@, p.1@))
    }
}

/// Parses a section selector against a section count: the selector must be a
/// run of decimal digits whose value lies in `1..=count`.
fn parse_selector(sel: &str, count: usize) -> (r: Result<usize, CheatError>)
    ensures
        match r {
            Ok(i) => is_digit_seq(sel@) && 1 <= i <= count && i as nat == digits_value(sel@),
            Err(e) => match e {
                CheatError::InvalidSectionIndex => !is_digit_seq(sel@),
                CheatError::SectionIndexOutOfRange => is_digit_seq(sel@) && (digits_value(sel@)
                    == 0 || digits_value(sel@) > count as nat),
                CheatError::UnknownDocument => false,
            },
        },
{
    let n = sel.unicode_len();
    if n == 0 {
        return Err(CheatError::InvalidSectionIndex);
    }
    let ghost s = sel@;
    let mut v: u128 = 0;
    let mut over = false;
    let mut i: usize = 0;
    proof {
        assert(s.take(0) =~= Seq::<char>::empty());
    }
    while i < n
        invariant
            n == s.len(),
            s == sel@,
            i <= n,
            count <= usize::MAX,
            forall|k: int| 0 <= k < i ==> is_digit_char(s[k]),
            over ==> digits_value(s.take(i as int)) > count as nat,
            !over ==> v as nat == digits_value(s.take(i as int)) && v <= count as u128,
        decreases n - i,
    {
        let c = sel.get_char(i);
        if !char_is_digit(c) {
            proof {
                assert(!is_digit_char(s[i as int]));
            }
            return Err(CheatError::InvalidSectionIndex);
        }
        let d = (c as u32) - ('0' as u32);
        proof {
            assert(s.take(i + 1).drop_last() =~= s.take(i as int));
            assert(s.take(i + 1).last() == s[i as int]);
            assert(digits_value(s.take(i + 1)) == digits_value(s.take(i as int)) * 10 + digit_val(
                s[i as int],
            ));
            assert(d as nat == digit_val(s[i as int]));
        }
        if !over {
            proof {
                assert(count as u128 <= u64::MAX as u128);
            }
            let nv = v * 10 + (d as u128);
            if nv > count as u128 {
                over = true;
            } else {
                v = nv;
            }
        }
        i = i + 1;
    }
    proof {
        assert(s.take(n as int) =~= s);
        assert(is_digit_seq(s));
    }
    if over {
        return Err(CheatError::SectionIndexOutOfRange);
    }
    if v == 0 {
        return Err(CheatError::SectionIndexOutOfRange);
    }
    proof {
        assert(v <= usize::MAX as u128);
    }
    Ok(v as usize)
}

/// Every styled line of the listing entry for section `i` of `total`: a
/// tree-drawing prefix, the 1-based number, the title, and a line break.
pub open spec fn entry_model(i: int, total: int, title: Seq<char>) -> Seq<char> {
    format_header_model(
        (if i + 1 == total {
            "\u{2514}\u{2500}\u{2500} "@
        } else {
            "\u{251c}\u{2500}\u{2500} "@
        }) + dec_str((i + 1) as nat) + ". "@ + title,
        false,
    ) + "\n"@
}

/// The listing entries of the first `k` of `total` sections.
pub open spec fn entries_upto(secs: Seq<SectionModel>, k: int, total: int) -> Seq<char>
    decreases k
{
    if k <= 0 {
        Seq::empty()
    } else {
        entries_upto(secs, k - 1, total) + entry_model(k - 1, total, secs[k - 1].title)
    }
}

/// The listing block of one document: a blank line, the emphasized name, and
/// one entry per parsed section.
pub open spec fn doc_listing(name: Seq<char>, doc: Seq<char>) -> Seq<char> {
    let secs = parse_model(doc);
    "\n"@ + format_header_model(name, true) + "\n"@ + entries_upto(
        secs,
        secs.len() as int,
        secs.len() as int,
    )
}

/// The listing of every owned document, in order.
pub open spec fn listing_model(sheets: Seq<(Seq<char>, Seq<char>)>) -> Seq<char>
    decreases sheets.len()
{
    if sheets.len() == 0 {
        Seq::empty()
    } else {
        listing_model(sheets.drop_last()) + doc_listing(sheets.last().0, sheets.last().1)
    }
}

impl CheatSheetManager {
    /// Builds the manager over the three embedded documents.
    pub fn new() -> (r: Self)
        ensures
            r@ == seq![
                ("Basics"@, BASICS_DOC@),
                ("Intermediate"@, INTERMEDIATE_DOC@),
                ("Advanced"@, ADVANCED_DOC@),
            ],
    {
        let mut sheets: Vec<(String, String)> = Vec::new();
        sheets.push((String::from_str("Basics"), String::from_str(BASICS_DOC)));
        sheets.push((String::from_str("Intermediate"), String::from_str(INTERMEDIATE_DOC)));
        sheets.push((String::from_str("Advanced"), String::from_str(ADVANCED_DOC)));
        let r = CheatSheetManager { sheets };
        proof {
            assert(r@ =~= seq![
                ("Basics"@, BASICS_DOC@),
                ("Intermediate"@, INTERMEDIATE_DOC@),
                ("Advanced"@, ADVANCED_DOC@),
            ]);
        }
        r
    }

    /// Looks a document up by name among the owned sheets, front to back.
    pub fn get_sheet_content<'a>(&'a self, name: &str) -> (r: Option<&'a String>)
        ensures
            match r {
                Some(c) => sheet_lookup(self@, name@) == Some(c@),
                None => sheet_lookup(self@, name@) == Option::<Seq<char>>::None,
            },
    {
        let u = name.to_owned();
        let mut i: usize = 0;
        proof {
            assert(self@.skip(0) =~= self@);
        }
        while i < self.sheets.len()
            invariant
                i <= self.sheets@.len(),
                u@ == name@,
                sheet_lookup(self@, name@) == sheet_lookup(self@.skip(i as int), name@),
            decreases self.sheets@.len() - i,
        {
            proof {
                assert(self@.skip(i as int)[0] == self@[i as int]);
                assert(self@.skip(i as int).drop_first() =~= self@.skip(i + 1));
            }
            if self.sheets[i].0 == u {
                proof {
                    assert(self@[i as int].0 == name@);
                }
                return Some(&self.sheets[i].1);
            }
            proof {
                assert(self@[i as int].0 != name@);
            }
            i = i + 1;
        }
        proof {
            assert(self@.skip(self@.len() as int) =~= Seq::<(Seq<char>, Seq<char>)>::empty());
        }
        None
    }

    /// Renders one section of one document, selected by a 1-based index given
    /// as text.  Exactly one of the three errors names each way the request
    /// can fail.
    pub fn section_text(&self, sheet_name: &str, section_number: &str) -> (r: Result<
        String,
        CheatError,
    >)
        ensures
            ({
                let found = sheet_lookup(self@, sheet_name@);
                match r {
                    Ok(out) => match found {
                        Some(doc) => {
                            let secs = parse_model(doc);
                            let v = digits_value(section_number@);
                            &&& is_digit_seq(section_number@)
                            &&& 1 <= v <= secs.len()
                            &&& out@ == render_model(tokenize_model(secs[v - 1].content))
                        },
                        None => false,
                    },
                    Err(e) => match e {
                        CheatError::UnknownDocument => match found {
                            Some(_) => false,
                            None => true,
                        },
                        CheatError::InvalidSectionIndex => match found {
                            Some(_) => !is_digit_seq(section_number@),
                            None => false,
                        },
                        CheatError::SectionIndexOutOfRange => match found {
                            Some(doc) => {
                                let v = digits_value(section_number@);
                                is_digit_seq(section_number@) && (v == 0 || v > parse_model(
                                    doc,
                                ).len())
                            },
                            None => false,
                        },
                    },
                }
            }),
    {
        let content = match self.get_sheet_content(sheet_name) {
            Some(c) => c,
            None => {
                return Err(CheatError::UnknownDocument);
            },
        };
        let cheat = match parse_content(content.as_str()) {
            Ok(cs) => cs,
            Err(_) => unreached(),
        };
        let idx = match parse_selector(section_number, cheat.sections.len()) {
            Ok(i) => i,
            Err(e) => {
                return Err(e);
            },
        };
        let section = &cheat.sections[idx - 1];
        proof {
            assert(cheat@[idx - 1] == cheat.sections@[idx - 1]@);
        }
        Ok(highlight(section.content.as_str()))
    }

    /// Renders one whole document, highlighted.
    pub fn full_sheet_text(&self, sheet_name: &str) -> (r: Result<String, CheatError>)
        ensures
            ({
                let found = sheet_lookup(self@, sheet_name@);
                match r {
                    Ok(out) => match found {
                        Some(doc) => out@ == render_model(tokenize_model(doc)),
                        None => false,
                    },
                    Err(e) => e == CheatError::UnknownDocument && match found {
                        Some(_) => false,
                        None => true,
                    },
                }
            }),
    {
        let content = match self.get_sheet_content(sheet_name) {
            Some(c) => c,
            None => {
                return Err(CheatError::UnknownDocument);
            },
        };
        Ok(highlight(content.as_str()))
    }

    /// The listing view: every owned document's emphasized name followed by
    /// its numbered section titles with tree-drawing prefixes.
    pub fn listing_text(&self) -> (r: String)
        ensures
            r@ == listing_model(self@),
    {
        let mut out = String::new();
        let mut i: usize = 0;
        proof {
            assert(listing_model(self@.take(0)) =~= Seq::<char>::empty());
        }
        while i < self.sheets.len()
            invariant
                i <= self.sheets@.len(),
                out@ == listing_model(self@.take(i as int)),
            decreases self.sheets@.len() - i,
        {
            let ghost before = out@;
            let name = &self.sheets[i].0;
            let hdr = format_header(name.as_str(), true);
            out.append("\n");
            out.append(hdr.as_str());
            out.append("\n");
            let ghost base = before + "\n"@ + format_header_model(name@, true) + "\n"@;
            let cheat = match parse_content(self.sheets[i].1.as_str()) {
                Ok(cs) => cs,
                Err(_) => unreached(),
            };
            let ghost secs = parse_model(self@[i as int].1);
            let total = cheat.sections.len();
            proof {
                assert(cheat@ == secs);
                assert(total as int == secs.len());
                assert(out@ =~= base + entries_upto(secs, 0, total as int));
            }
            let mut k: usize = 0;
            while k < total
                invariant
                    k <= total,
                    total == cheat.sections@.len(),
                    cheat@ == secs,
                    out@ == base + entries_upto(secs, k as int, total as int),
                decreases total - k,
            {
                let mut entry = if k + 1 == total {
                    String::from_str("\u{2514}\u{2500}\u{2500} ")
                } else {
                    String::from_str("\u{251c}\u{2500}\u{2500} ")
                };
                let num = dec_string((k + 1) as u64);
                entry.append(num.as_str());
                entry.append(". ");
                entry.append(cheat.sections[k].title.as_str());
                let styled = format_header(entry.as_str(), false);
                let ghost mid = out@;
                out.append(styled.as_str());
                out.append("\n");
                proof {
                    assert(cheat.sections@[k as int]@ == secs[k as int]);
                    assert(entry@ =~= (if k + 1 == total {
                        "\u{2514}\u{2500}\u{2500} "@
                    } else {
                        "\u{251c}\u{2500}\u{2500} "@
                    }) + dec_str((k + 1) as nat) + ". "@ + secs[k as int].title);
                    assert(out@ =~= mid + entry_model(k as int, total as int, secs[k as int].title));
                    assert(out@ =~= base + entries_upto(secs, k + 1, total as int));
                }
                k = k + 1;
            }
            proof {
                assert(self@.take(i + 1).drop_last() =~= self@.take(i as int));
                assert(self@.take(i + 1).last() == self@[i as int]);
                assert(entries_upto(secs, total as int, total as int) == entries_upto(
                    secs,
                    secs.len() as int,
                    secs.len() as int,
                ));
                assert(out@ =~= listing_model(self@.take(i + 1)));
            }
            i = i + 1;
        }
        proof {
            assert(self@.take(self@.len() as int) =~= self@);
        }
        out
    }

    /// Wraps a user-facing error message in the fixed error style.
    pub fn format_error(&self, error: &str) -> (r: String)
        ensures
            r@ == format_error_model(error@),
    {
        crate::render::format_error(error)
    }
}

} // verus!
