//! The section parser: splits a flat document into titled, delimiter-bounded
//! sections.
//!
//! A section starts at a line that begins with the delimiter marker `# ----`,
//! immediately followed by a header line reading `# <number>. <title>` whose
//! number is a positive integer, immediately followed by another delimiter
//! line.  A section's content is the exact text of the document from its
//! opening delimiter up to (but not including) the next section start, or to
//! the end of the document.

use vstd::prelude::*;
use vstd::pervasive::unreached;

use crate::text::{
    is_digit_char, char_is_digit, line_end, lemma_line_end, lemma_line_end_same_line,
    find_line_end,
};

verus! {

/// Position `p` begins a line.
pub open spec fn is_line_start(s: Seq<char>, p: int) -> bool {
    p == 0 || s[p - 1] == '\n'
}

/// The delimiter marker `# ----` stands at position `p`.
pub open spec fn is_delim_at(s: Seq<char>, p: int) -> bool {
    &&& 0 <= p
    &&& p + 6 <= s.len()
    &&& s[p] == '#'
    &&& s[p + 1] == ' '
    &&& s[p + 2] == '-'
    &&& s[p + 3] == '-'
    &&& s[p + 4] == '-'
    &&& s[p + 5] == '-'
}

/// Position reached after stripping every leading `# ` marker from position `p`.
pub open spec fn strip_pos(s: Seq<char>, p: int) -> int
    decreases s.len() - p when 0 <= p <= s.len()
{
    if p + 2 <= s.len() && s[p] == '#' && s[p + 1] == ' ' {
        strip_pos(s, p + 2)
    } else {
        p
    }
}

pub proof fn lemma_strip_pos(s: Seq<char>, p: int)
    requires
        0 <= p <= s.len(),
    ensures
        p <= strip_pos(s, p) <= s.len(),
        forall|i: int| p <= i < strip_pos(s, p) ==> s[i] != '\n',
    decreases s.len() - p,
{
    if p + 2 <= s.len() && s[p] == '#' && s[p + 1] == ' ' {
        lemma_strip_pos(s, p + 2);
    }
}

/// Position of the first `. ` at or after `p` on the current line, or -1
/// when the line holds none.
pub open spec fn dot_space_pos(s: Seq<char>, p: int) -> int
    decreases s.len() - p when 0 <= p <= s.len()
{
    if p + 2 > s.len() {
        -1
    } else if s[p] == '\n' {
        -1
    } else if s[p] == '.' && s[p + 1] == ' ' {
        p
    } else {
        dot_space_pos(s, p + 1)
    }
}

pub proof fn lemma_dot_space(s: Seq<char>, p: int)
    requires
        0 <= p <= s.len(),
        dot_space_pos(s, p) >= 0,
    ensures
        ({
            let j = dot_space_pos(s, p);
            &&& p <= j
            &&& j + 2 <= s.len()
            &&& s[j] == '.'
            &&& s[j + 1] == ' '
            &&& forall|i: int| p <= i < j + 2 ==> s[i] != '\n'
        }),
    decreases s.len() - p,
{
    if p + 2 <= s.len() && s[p] != '\n' && !(s[p] == '.' && s[p + 1] == ' ') {
        lemma_dot_space(s, p + 1);
    }
}

/// The line starting at `q` is a well-formed section header: it begins with
/// `# `, and after stripping every leading `# ` marker it reads
/// `<number>. <anything>` where the number is a nonempty run of decimal
/// digits with a nonzero value.
pub open spec fn header_num_ok(s: Seq<char>, q: int) -> bool {
    let qr = strip_pos(s, q);
    let j = dot_space_pos(s, qr);
    &&& 0 <= q
    &&& q + 2 <= s.len()
    &&& s[q] == '#'
    &&& s[q + 1] == ' '
    &&& j >= 0
    &&& qr < j
    &&& (forall|k: int| qr <= k < j ==> is_digit_char(s[k]))
    &&& (exists|k: int| qr <= k < j && s[k] != '0')
}

/// The title of the header line starting at `q`: everything after the first
/// `. ` of the stripped header, to the end of the line.
pub open spec fn header_title(s: Seq<char>, q: int) -> Seq<char> {
    let j = dot_space_pos(s, strip_pos(s, q));
    s.subrange(j + 2, line_end(s, q))
}

pub proof fn lemma_header_title_bounds(s: Seq<char>, q: int)
    requires
        0 <= q <= s.len(),
        header_num_ok(s, q),
    ensures
        ({
            let j = dot_space_pos(s, strip_pos(s, q));
            q <= j && j + 2 <= line_end(s, q) <= s.len()
        }),
{
    let qr = strip_pos(s, q);
    let j = dot_space_pos(s, qr);
    lemma_strip_pos(s, q);
    lemma_dot_space(s, qr);
    lemma_line_end(s, j + 2);
    lemma_line_end_same_line(s, q, j + 2);
}

/// A recognized section start: a delimiter line, then a well-formed header
/// line, then another delimiter line.
pub open spec fn is_section_start(s: Seq<char>, p: int) -> bool {
    let e1 = line_end(s, p);
    let e2 = line_end(s, e1 + 1);
    &&& 0 <= p < s.len()
    &&& is_line_start(s, p)
    &&& is_delim_at(s, p)
    &&& e1 < s.len()
    &&& header_num_ok(s, e1 + 1)
    &&& e2 < s.len()
    &&& is_delim_at(s, e2 + 1)
}

/// The title of the section starting at position `p`.
pub open spec fn title_at(s: Seq<char>, p: int) -> Seq<char> {
    header_title(s, line_end(s, p) + 1)
}

/// All section start positions at or after `p`, in increasing order.
pub open spec fn starts_from(s: Seq<char>, p: int) -> Seq<int>
    decreases s.len() - p when 0 <= p
{
    if p >= s.len() {
        Seq::empty()
    } else if is_section_start(s, p) {
        seq![p] + starts_from(s, p + 1)
    } else {
        starts_from(s, p + 1)
    }
}

/// All section start positions of the document, in document order.
pub open spec fn section_starts(s: Seq<char>) -> Seq<int> {
    starts_from(s, 0)
}

pub proof fn lemma_starts_from(s: Seq<char>, p: int)
    requires
        0 <= p,
    ensures
        forall|k: int|
            0 <= k < starts_from(s, p).len() ==> p <= #[trigger] starts_from(s, p)[k] < s.len()
                && is_section_start(s, starts_from(s, p)[k]),
        forall|k: int|
            0 <= k < starts_from(s, p).len() - 1 ==> #[trigger] starts_from(s, p)[k]
                < starts_from(s, p)[k + 1],
    decreases s.len() - p,
{
    if p < s.len() {
        lemma_starts_from(s, p + 1);
        let st = starts_from(s, p);
        let rest = starts_from(s, p + 1);
        if is_section_start(s, p) {
            assert(st == seq![p] + rest);
            assert forall|k: int| 0 <= k < st.len() implies p <= #[trigger] st[k] < s.len()
                && is_section_start(s, st[k]) by {
                if k == 0 {
                    assert(st[0] == p);
                } else {
                    assert(st[k] == rest[k - 1]);
                }
            }
            assert forall|k: int| 0 <= k < st.len() - 1 implies #[trigger] st[k] < st[k + 1] by {
                if k == 0 {
                    assert(st[0] == p);
                    assert(st[1] == rest[0]);
                } else {
                    assert(st[k] == rest[k - 1]);
                    assert(st[k + 1] == rest[k]);
                }
            }
        } else {
            assert(st == rest);
        }
    }
}

/// Starts are sorted: an earlier index holds a smaller position.
pub proof fn lemma_starts_le(s: Seq<char>, k: int, l: int)
    requires
        0 <= k <= l < section_starts(s).len(),
    ensures
        section_starts(s)[k] <= section_starts(s)[l],
    decreases l - k,
{
    lemma_starts_from(s, 0);
    if k < l {
        lemma_starts_le(s, k + 1, l);
    }
}

/// One parsed section, as the specification sees it.
pub struct SectionModel {
    pub title: Seq<char>,
    pub content: Seq<char>,
}

/// End of the section at index `i` of the starts list: the next start, or
/// the end of the document.
pub open spec fn section_end(s: Seq<char>, i: int) -> int {
    let st = section_starts(s);
    if i + 1 < st.len() {
        st[i + 1]
    } else {
        s.len() as int
    }
}

/// The parsed document: every recognized section in document order, each with
/// its title and its exact text up to the next section start.
pub open spec fn parse_model(s: Seq<char>) -> Seq<SectionModel> {
    let st = section_starts(s);
    Seq::new(
        st.len(),
        |i: int|
            SectionModel {
                title: title_at(s, st[i]),
                content: s.subrange(st[i], section_end(s, i)),
            },
    )
}

/// One titled block of a parsed document.
pub struct Section {
    pub title: String,
    pub content: String,
}

impl View for Section {
    type V = SectionModel;

    open spec fn view(&self) -> SectionModel {
        SectionModel { title: self.title@, content: self.content@ }
    }
}

/// An ordered collection of sections parsed from one document.
pub struct CheatSheet {
    pub sections: Vec<Section>,
}

impl View for CheatSheet {
    type V = Seq<SectionModel>;

    open spec fn view(&self) -> Seq<SectionModel> {
        self.sections@.map_values(|sec: Section| sec@)
    }
}

/// Parsing cannot fail on any input; this type has no value that `parse_content`
/// returns.
#[derive(Debug)]
pub struct ParseFailure {}

/// Exec counterpart of `strip_pos`.
fn strip_marker(s: &str, p: usize, n: usize) -> (r: usize)
    requires
        n == s@.len(),
        p <= n,
    ensures
        r == strip_pos(s@, p as int),
        p <= r <= n,
    decreases n - p,
{
    if n - p >= 2 {
        let a = s.get_char(p);
        let b = s.get_char(p + 1);
        if a == '#' && b == ' ' {
            return strip_marker(s, p + 2, n);
        }
    }
    p
}

/// Exec counterpart of `dot_space_pos`.
fn find_dot_space(s: &str, p: usize, n: usize) -> (r: Option<usize>)
    requires
        n == s@.len(),
        p <= n,
    ensures
        match r {
            Some(j) => j as int == dot_space_pos(s@, p as int) && p <= j && j + 2 <= n,
            None => dot_space_pos(s@, p as int) == -1,
        },
    decreases n - p,
{
    if n - p < 2 {
        return None;
    }
    let c = s.get_char(p);
    if c == '\n' {
        return None;
    }
    if c == '.' && s.get_char(p + 1) == ' ' {
        return Some(p);
    }
    find_dot_space(s, p + 1, n)
}

/// The span `[lo, hi)` is a nonempty run of decimal digits with a nonzero value.
fn check_digits(s: &str, lo: usize, hi: usize, n: usize) -> (r: bool)
    requires
        n == s@.len(),
        lo <= hi <= n,
    ensures
        r == (lo < hi && (forall|k: int| lo <= k < hi ==> is_digit_char(s@[k])) && (exists|k: int|
            lo <= k < hi && s@[k] != '0')),
{
    if lo >= hi {
        return false;
    }
    let mut i = lo;
    let mut nonzero = false;
    while i < hi
        invariant
            lo <= i <= hi <= n,
            n == s@.len(),
            forall|k: int| lo <= k < i ==> is_digit_char(s@[k]),
            nonzero == (exists|k: int| lo <= k < i && s@[k] != '0'),
        decreases hi - i,
    {
        let c = s.get_char(i);
        if !char_is_digit(c) {
            return false;
        }
        if c != '0' {
            proof {
                assert(s@[i as int] != '0');
            }
            nonzero = true;
        }
        i = i + 1;
    }
    nonzero
}

/// The delimiter marker stands at `p`.
fn check_delim(s: &str, p: usize, n: usize) -> (b: bool)
    requires
        n == s@.len(),
        p <= n,
    ensures
        b == is_delim_at(s@, p as int),
{
    if n - p < 6 {
        return false;
    }
    let c0 = s.get_char(p);
    let c1 = s.get_char(p + 1);
    let c2 = s.get_char(p + 2);
    let c3 = s.get_char(p + 3);
    let c4 = s.get_char(p + 4);
    let c5 = s.get_char(p + 5);
    c0 == '#' && c1 == ' ' && c2 == '-' && c3 == '-' && c4 == '-' && c5 == '-'
}

/// The line at `q` is a well-formed section header.
fn check_header(s: &str, q: usize, n: usize) -> (b: bool)
    requires
        n == s@.len(),
        q <= n,
    ensures
        b == header_num_ok(s@, q as int),
{
    if n - q < 2 {
        return false;
    }
    if s.get_char(q) != '#' {
        return false;
    }
    if s.get_char(q + 1) != ' ' {
        return false;
    }
    let qr = strip_marker(s, q, n);
    match find_dot_space(s, qr, n) {
        None => false,
        Some(j) => check_digits(s, qr, j, n),
    }
}

/// A recognized section start stands at position `p`.
fn check_section_start(s: &str, p: usize, n: usize) -> (b: bool)
    requires
        n == s@.len(),
        p < n,
    ensures
        b == is_section_start(s@, p as int),
{
    if p > 0 {
        if s.get_char(p - 1) != '\n' {
            return false;
        }
    }
    if !check_delim(s, p, n) {
        return false;
    }
    let e1 = find_line_end(s, p, n);
    if e1 >= n {
        return false;
    }
    let q = e1 + 1;
    if !check_header(s, q, n) {
        return false;
    }
    let e2 = find_line_end(s, q, n);
    if e2 >= n {
        return false;
    }
    check_delim(s, e2 + 1, n)
}

/// Splits a document into its recognized sections.  Never fails: a document
/// with no recognized section yields an empty collection.
pub fn parse_content(content: &str) -> (r: Result<CheatSheet, ParseFailure>)
    ensures
        r is Ok,
        match r {
            Ok(cs) => cs@ == parse_model(content@),
            Err(_) => false,
        },
{
    let n = content.unicode_len();
    let ghost s = content@;

    let mut starts: Vec<usize> = Vec::new();
    let mut p: usize = 0;
    while p < n
        invariant
            n == s.len(),
            s == content@,
            p <= n,
            section_starts(s) == starts@.map_values(|u: usize| u as int) + starts_from(
                s,
                p as int,
            ),
        decreases n - p,
    {
        let ghost prev = starts@;
        if check_section_start(content, p, n) {
            starts.push(p);
            proof {
                assert(starts_from(s, p as int) == seq![p as int] + starts_from(s, p + 1));
                assert(starts@.map_values(|u: usize| u as int) =~= prev.map_values(
                    |u: usize| u as int,
                ).push(p as int));
                assert(starts@.map_values(|u: usize| u as int) + starts_from(s, p + 1)
                    =~= prev.map_values(|u: usize| u as int) + starts_from(s, p as int));
            }
        } else {
            proof {
                assert(starts_from(s, p as int) == starts_from(s, p + 1));
            }
        }
        p = p + 1;
    }
    proof {
        assert(starts_from(s, n as int) =~= Seq::<int>::empty());
        assert(section_starts(s) =~= starts@.map_values(|u: usize| u as int));
        lemma_starts_from(s, 0);
    }

    let mut sections: Vec<Section> = Vec::new();
    let mut i: usize = 0;
    while i < starts.len()
        invariant
            n == s.len(),
            s == content@,
            i <= starts.len(),
            section_starts(s) == starts@.map_values(|u: usize| u as int),
            sections@.map_values(|sec: Section| sec@) == parse_model(s).take(i as int),
        decreases starts.len() - i,
    {
        let ghost st = section_starts(s);
        let sp = starts[i];
        proof {
            lemma_starts_from(s, 0);
            assert(st[i as int] == sp as int);
            assert(is_section_start(s, sp as int));
        }
        let end = if i + 1 < starts.len() {
            proof {
                assert(st[i as int] < st[i as int + 1]);
            }
            starts[i + 1]
        } else {
            n
        };
        proof {
            assert(end as int == section_end(s, i as int));
            assert(sp < end <= n);
        }

        let e1 = find_line_end(content, sp, n);
        proof {
            assert(e1 < n) by {
                assert(is_section_start(s, sp as int));
            }
        }
        let q = e1 + 1;
        proof {
            assert(header_num_ok(s, q as int));
            lemma_header_title_bounds(s, q as int);
            lemma_strip_pos(s, q as int);
        }
        let qr = strip_marker(content, q, n);
        let j = match find_dot_space(content, qr, n) {
            Some(j) => j,
            None => unreached(),
        };
        let te = find_line_end(content, q, n);
        proof {
            assert(j + 2 <= te <= n);
        }
        let title_str = content.substring_char(j + 2, te);
        let content_str = content.substring_char(sp, end);
        let sec = Section {
            title: title_str.to_owned(),
            content: content_str.to_owned(),
        };
        proof {
            assert(sec@.title =~= title_at(s, st[i as int]));
            assert(sec@.content =~= parse_model(s)[i as int].content);
            assert(sec@ == parse_model(s)[i as int]);
        }
        let ghost prev_secs = sections@;
        sections.push(sec);
        proof {
            assert(sections@.map_values(|x: Section| x@) =~= prev_secs.map_values(
                |x: Section| x@,
            ).push(sec@));
            assert(parse_model(s).take(i as int + 1) =~= parse_model(s).take(i as int).push(
                parse_model(s)[i as int],
            ));
        }
        i = i + 1;
    }
    proof {
        assert(parse_model(s).take(starts@.len() as int) =~= parse_model(s));
    }
    Ok(CheatSheet { sections })
}

/// Concatenation of every section's content, in order.
pub open spec fn concat_contents(secs: Seq<SectionModel>) -> Seq<char>
    decreases secs.len()
{
    if secs.len() == 0 {
        Seq::empty()
    } else {
        concat_contents(secs.drop_last()) + secs.last().content
    }
}

#[verifier::rlimit(60)]
proof fn lemma_round_trip_aux(s: Seq<char>, i: int)
    requires
        1 <= i <= section_starts(s).len(),
    ensures
        concat_contents(parse_model(s).take(i)) == s.subrange(
            section_starts(s)[0],
            section_end(s, i - 1),
        ),
    decreases i,
{
    let st = section_starts(s);
    let pm = parse_model(s);
    lemma_starts_from(s, 0);
    if i == 1 {
        assert(concat_contents(pm.take(1)) == concat_contents(pm.take(1).drop_last())
            + pm.take(1).last().content);
        assert(pm.take(1).drop_last() =~= Seq::<SectionModel>::empty());
        assert(concat_contents(Seq::<SectionModel>::empty()) == Seq::<char>::empty());
        assert(pm.take(1).last() == pm[0]);
        assert(pm[0].content == s.subrange(st[0], section_end(s, 0)));
        assert(Seq::<char>::empty() + pm[0].content =~= pm[0].content);
    } else {
        lemma_round_trip_aux(s, i - 1);
        assert(pm.take(i).drop_last() =~= pm.take(i - 1));
        assert(pm.take(i).last() == pm[i - 1]);
        lemma_starts_le(s, 0, i - 1);
        assert(section_end(s, i - 2) == st[i - 1]);
        if i < st.len() {
            assert(st[i - 1] < st[i]);
        } else {
            assert(st[i - 1] < s.len());
        }
        assert(s.subrange(st[0], st[i - 1]) + s.subrange(st[i - 1], section_end(s, i - 1))
            =~= s.subrange(st[0], section_end(s, i - 1)));
    }
}

/// Round trip of sectioning: for a document with at least one recognized
/// section, concatenating every section's content in order reproduces the
/// document's exact text from the first section start to the end.
pub proof fn lemma_sectioning_round_trip(s: Seq<char>)
    requires
        parse_model(s).len() > 0,
    ensures
        concat_contents(parse_model(s)) == s.subrange(section_starts(s)[0], s.len() as int),
{
    let st = section_starts(s);
    lemma_round_trip_aux(s, st.len() as int);
    assert(parse_model(s).take(st.len() as int) =~= parse_model(s));
    assert(section_end(s, st.len() - 1) == s.len());
}

/// Sections come in document order: parsing yields exactly one section per
/// recognized start, at strictly increasing positions, never reordered.
pub proof fn lemma_sections_in_document_order(s: Seq<char>)
    ensures
        parse_model(s).len() == section_starts(s).len(),
        forall|i: int|
            0 <= i < section_starts(s).len() - 1 ==> #[trigger] section_starts(s)[i]
                < section_starts(s)[i + 1],
        forall|i: int|
            0 <= i < section_starts(s).len() ==> is_section_start(
                s,
                #[trigger] section_starts(s)[i],
            ),
{
    lemma_starts_from(s, 0);
}

/// Malformed header tolerance: a candidate whose header line does not read
/// `<positive integer>. <title>` after its markers is no section start, and
/// parsing goes on without an error.
pub proof fn lemma_malformed_header_no_section(s: Seq<char>, p: int)
    requires
        0 <= p <= s.len(),
        !header_num_ok(s, line_end(s, p) + 1),
    ensures
        !is_section_start(s, p),
{
}

} // verus!
