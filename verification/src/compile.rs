//! Build logs: an oversized log is cut at a fixed number of bytes, and the
//! compiler's `file:line:column: severity: message` lines are read into
//! diagnostics that point at sources of the project.
use vstd::prelude::*;
use vstd::string::StringExecFns;
use crate::confine::{
    path_starts_with_name, safe_relative, safe_relative_path, starts_with_name,
    strip_prefix, strip_prefix_of,
};
use crate::path::{find_last, is_absolute, last_index, lemma_last_index, split, split_chars, views};
use crate::text::{
    byte_len, byte_len_at_most, chars_of, decimal, outcome_view, is_ascii_digit, lemma_byte_len_bounds,
    lemma_byte_len_concat, owned, push_decimal, replace_char, replaced, str_eq, string_of,
    string_of_range, trim, trimmed_range, width,
};

verus! {

/// The largest build log, in bytes, kept whole.
pub const MAX_BUILD_LOG: usize = 500_000;

/// What is appended to a log that was cut.
pub const TRUNCATION_NOTE: &'static str = "\n… journal tronqué par PSP Reborn Studio";

// ---------------------------------------------------------------------------
// Cutting an oversized log
// ---------------------------------------------------------------------------
/// Whether a string holding the characters `s` can be cut after `n` bytes,
/// that is whether `n` falls between two characters.
pub open spec fn is_char_boundary(s: Seq<char>, n: nat) -> bool {
    exists|k: int| 0 <= k <= s.len() && #[trigger] byte_len(s.take(k)) == n
}

/// The number of characters held by the first `MAX_BUILD_LOG` bytes.
pub open spec fn log_cut(s: Seq<char>) -> int {
    choose|k: int| 0 <= k <= s.len() && #[trigger] byte_len(s.take(k)) == MAX_BUILD_LOG
}

/// The log as kept: unchanged when it has at most `MAX_BUILD_LOG` bytes,
/// else its first `MAX_BUILD_LOG` bytes followed by the truncation note.
pub open spec fn truncated_log(s: Seq<char>) -> Seq<char> {
    if byte_len(s) > MAX_BUILD_LOG {
        s.take(log_cut(s)) + TRUNCATION_NOTE@
    } else {
        s
    }
}

/// Every character takes at least one byte, so a longer prefix is longer
/// in bytes too.
pub proof fn lemma_prefix_bytes(s: Seq<char>, j: int, k: int)
    requires
        0 <= j <= k <= s.len(),
    ensures
        byte_len(s.take(j)) + (k - j) <= byte_len(s.take(k)),
{
    assert(s.take(k) =~= s.take(j) + s.subrange(j, k));
    lemma_byte_len_concat(s.take(j), s.subrange(j, k));
    lemma_byte_len_bounds(s.subrange(j, k));
}

/// Keeps at most `MAX_BUILD_LOG` bytes of a build log, and says so at its
/// end when something was cut. The cut must fall between two characters.
pub fn truncate_build_log(output: String) -> (r: String)
    requires
        byte_len(output@) > MAX_BUILD_LOG ==> is_char_boundary(output@, MAX_BUILD_LOG as nat),
    ensures
        r@ == truncated_log(output@),
{
    if byte_len_at_most(output.as_str(), MAX_BUILD_LOG) {
        return output;
    }
    let v = chars_of(output.as_str());
    let ghost s = output@;
    let ghost k = log_cut(s);
    proof {
        assert(0 <= k <= s.len() && byte_len(s.take(k)) == MAX_BUILD_LOG);
        assert(s.take(0) =~= Seq::<char>::empty());
    }
    let n = v.len();
    let mut total: usize = 0;
    let mut i: usize = 0;
    while total < MAX_BUILD_LOG
        invariant
            v@ == s,
            n == s.len(),
            0 <= k <= s.len(),
            byte_len(s.take(k)) == MAX_BUILD_LOG,
            i <= k,
            total == byte_len(s.take(i as int)),
        decreases k - i,
    {
        proof {
            if i == k {
                assert(false);
            }
            assert(i < k);
            assert(s.take(i + 1).drop_last() =~= s.take(i as int));
            lemma_prefix_bytes(s, i + 1, k);
        }
        total = total + width(v[i]);
        i = i + 1;
    }
    proof {
        if i < k {
            lemma_prefix_bytes(s, i as int, k);
        }
    }
    let mut r = string_of_range(&v, 0, i);
    r.append(TRUNCATION_NOTE);
    proof {
        assert(v@.subrange(0, i as int) =~= s.take(k));
    }
    r
}

// ---------------------------------------------------------------------------
// Lines
// ---------------------------------------------------------------------------
/// A line that ended with `\n`, without the `\r` that may precede it.
pub open spec fn strip_cr(g: Seq<char>) -> Seq<char> {
    if g.len() > 0 && g.last() == '\r' {
        g.drop_last()
    } else {
        g
    }
}

/// `str::lines`: the text split at each `\n`, a `\r` right before a `\n`
/// dropped, and no empty last line after a final `\n`.
pub open spec fn lines(s: Seq<char>) -> Seq<Seq<char>> {
    let segs = split(s, '\n');
    let ended = segs.drop_last().map_values(|g: Seq<char>| strip_cr(g));
    if segs.last().len() == 0 {
        ended
    } else {
        ended.push(segs.last())
    }
}

fn without_cr(g: &Vec<char>) -> (r: Vec<char>)
    ensures
        r@ == strip_cr(g@),
{
    let n = if g.len() > 0 && g[g.len() - 1] == '\r' {
        g.len() - 1
    } else {
        g.len()
    };
    let mut r: Vec<char> = Vec::new();
    let mut i: usize = 0;
    while i < n
        invariant
            n <= g.len(),
            i <= n,
            r@ == g@.take(i as int),
        decreases n - i,
    {
        r.push(g[i]);
        proof {
            assert(r@ =~= g@.take(i + 1));
        }
        i = i + 1;
    }
    proof {
        assert(g@.take(n as int) =~= strip_cr(g@));
    }
    r
}

/// The lines of `s`.
pub fn lines_of(s: &Vec<char>) -> (r: Vec<Vec<char>>)
    ensures
        views(r@) == lines(s@),
{
    let segs = split_chars(s, '\n');
    let ghost d = views(segs@);
    proof {
        crate::path::lemma_split_len(s@, '\n');
    }
    let last = segs.len() - 1;
    let mut r: Vec<Vec<char>> = Vec::new();
    let mut i: usize = 0;
    while i < last
        invariant
            last + 1 == segs.len(),
            d == views(segs@),
            i <= last,
            views(r@) == d.take(i as int).map_values(|g: Seq<char>| strip_cr(g)),
        decreases last - i,
    {
        let ghost before = r@;
        r.push(without_cr(&segs[i]));
        proof {
            assert(views(r@) =~= views(before).push(strip_cr(d[i as int])));
            assert(d.take(i + 1).map_values(|g: Seq<char>| strip_cr(g)) =~= d.take(
                i as int,
            ).map_values(|g: Seq<char>| strip_cr(g)).push(strip_cr(d[i as int])));
        }
        i = i + 1;
    }
    proof {
        assert(d.take(last as int) =~= d.drop_last());
        assert(d.last() == segs@[last as int]@);
    }
    if segs[last].len() > 0 {
        let ghost before = r@;
        r.push(crate::text::copy_chars(&segs[last]));
        proof {
            assert(views(r@) =~= views(before).push(d.last()));
        }
    }
    r
}

// ---------------------------------------------------------------------------
// Searching and numbers
// ---------------------------------------------------------------------------
/// Whether `m` occurs in `s` at position `i`.
pub open spec fn occurs_at(s: Seq<char>, m: Seq<char>, i: int) -> bool {
    0 <= i && i + m.len() <= s.len() && s.subrange(i, i + m.len()) == m
}

/// The first position at or after `i` where `m` occurs in `s`, or -1.
pub open spec fn first_from(s: Seq<char>, m: Seq<char>, i: int) -> int
    decreases s.len() + 1 - i,
{
    if i < 0 || i + m.len() > s.len() {
        -1
    } else if occurs_at(s, m, i) {
        i
    } else {
        first_from(s, m, i + 1)
    }
}

/// The first position where `m` occurs in `s` (as `str::split_once` finds
/// it), or -1.
pub open spec fn first_occurrence(s: Seq<char>, m: Seq<char>) -> int {
    first_from(s, m, 0)
}

proof fn lemma_first_from(s: Seq<char>, m: Seq<char>, i: int)
    requires
        0 <= i,
    ensures
        first_from(s, m, i) == -1 || (i <= first_from(s, m, i) && occurs_at(
            s,
            m,
            first_from(s, m, i),
        )),
    decreases s.len() + 1 - i,
{
    if i + m.len() <= s.len() && !occurs_at(s, m, i) {
        lemma_first_from(s, m, i + 1);
    }
}

fn matches_at(s: &Vec<char>, m: &Vec<char>, i: usize) -> (r: bool)
    requires
        i + m.len() <= s.len(),
    ensures
        r == occurs_at(s@, m@, i as int),
{
    let mut k: usize = 0;
    while k < m.len()
        invariant
            i + m.len() <= s.len(),
            k <= m.len(),
            forall|j: int| 0 <= j < k ==> s@[i + j] == m@[j],
        decreases m.len() - k,
    {
        if s[i + k] != m[k] {
            proof {
                assert(s@.subrange(i as int, i + m.len())[k as int] != m@[k as int]);
            }
            return false;
        }
        k = k + 1;
    }
    proof {
        assert(s@.subrange(i as int, i + m.len()) =~= m@);
    }
    true
}

/// The first position where `m` occurs in `s`.
pub fn find_first(s: &Vec<char>, m: &Vec<char>) -> (r: Option<usize>)
    ensures
        match r {
            Some(i) => i == first_occurrence(s@, m@),
            None => first_occurrence(s@, m@) == -1,
        },
{
    if m.len() > s.len() {
        return None;
    }
    if m.len() == 0 {
        proof {
            assert(s@.subrange(0, 0) =~= m@);
        }
        return Some(0);
    }
    let mut i: usize = 0;
    while i <= s.len() - m.len()
        invariant
            1 <= m.len() <= s.len(),
            i <= s.len() - m.len() + 1,
            first_from(s@, m@, 0) == first_from(s@, m@, i as int),
        decreases s.len() + 1 - i,
    {
        if matches_at(s, m, i) {
            return Some(i);
        }
        i = i + 1;
    }
    None
}

/// The value of the digit `c`.
pub open spec fn digit_value(c: char) -> nat {
    ((c as int) - ('0' as int)) as nat
}

/// The value of a string of decimal digits.
pub open spec fn digits_value(d: Seq<char>) -> nat
    decreases d.len(),
{
    if d.len() == 0 {
        0
    } else {
        digits_value(d.drop_last()) * 10 + digit_value(d.last())
    }
}

pub open spec fn all_digits(d: Seq<char>) -> bool {
    forall|i: int| 0 <= i < d.len() ==> is_ascii_digit(#[trigger] d[i])
}

/// `usize::from_str`: an optional `+`, then one or more ASCII digits whose
/// value fits in a `usize`.
pub open spec fn parse_usize(s: Seq<char>) -> Option<nat> {
    let d = if s.len() > 0 && s[0] == '+' {
        s.drop_first()
    } else {
        s
    };
    if d.len() > 0 && all_digits(d) && digits_value(d) <= usize::MAX {
        Some(digits_value(d))
    } else {
        None
    }
}

/// Reads `s` as a `usize`.
pub fn parse_number(s: &Vec<char>) -> (r: Option<usize>)
    ensures
        match r {
            Some(n) => parse_usize(s@) == Some(n as nat),
            None => parse_usize(s@) is None,
        },
{
    let start: usize = if s.len() > 0 && s[0] == '+' {
        1
    } else {
        0
    };
    let ghost d = s@.skip(start as int);
    proof {
        if start == 1 {
            assert(d =~= s@.drop_first());
        } else {
            assert(d =~= s@);
        }
    }
    if start == s.len() {
        return None;
    }
    let mut acc: usize = 0;
    let mut over = false;
    let mut i: usize = start;
    proof {
        assert(d.take(0) =~= Seq::<char>::empty());
    }
    while i < s.len()
        invariant
            start <= i <= s.len(),
            d == s@.skip(start as int),
            d == (if s@.len() > 0 && s@[0] == '+' {
                s@.drop_first()
            } else {
                s@
            }),
            forall|j: int| 0 <= j < i - start ==> is_ascii_digit(#[trigger] d[j]),
            !over ==> acc == digits_value(d.take(i - start)),
            over ==> digits_value(d.take(i - start)) > usize::MAX,
        decreases s.len() - i,
    {
        let c = s[i];
        if !('0' <= c && c <= '9') {
            proof {
                assert(d[i - start] == c);
                assert(!all_digits(d));
            }
            return None;
        }
        let ghost t = d.take(i - start + 1);
        proof {
            assert(t.drop_last() =~= d.take(i - start));
            assert(t.last() == c);
        }
        let dig: usize = ((c as u32) - 48) as usize;
        if !over {
            match acc.checked_mul(10) {
                Some(a) => match a.checked_add(dig) {
                    Some(b) => {
                        acc = b;
                    },
                    None => {
                        over = true;
                    },
                },
                None => {
                    over = true;
                },
            }
        }
        i = i + 1;
    }
    proof {
        assert(d.take(s.len() - start) =~= d);
    }
    if over {
        None
    } else {
        Some(acc)
    }
}

// ---------------------------------------------------------------------------
// Compiler diagnostics
// ---------------------------------------------------------------------------
/// A compiler message that points at a file of the project.
#[derive(Debug)]
pub struct BuildDiagnostic {
    pub severity: String,
    pub file: String,
    pub line: usize,
    pub column: usize,
    pub message: String,
}

/// What a diagnostic says, as the contracts read it.
pub struct DiagnosticView {
    pub severity: Seq<char>,
    pub file: Seq<char>,
    pub line: nat,
    pub column: nat,
    pub message: Seq<char>,
}

impl View for BuildDiagnostic {
    type V = DiagnosticView;

    open spec fn view(&self) -> DiagnosticView {
        DiagnosticView {
            severity: self.severity@,
            file: self.file@,
            line: self.line as nat,
            column: self.column as nat,
            message: self.message@,
        }
    }
}

pub open spec fn diagnostics_view(v: Seq<BuildDiagnostic>) -> Seq<DiagnosticView> {
    v.map_values(|d: BuildDiagnostic| d@)
}

/// What separates the location from the message: `: error: ` and the like.
pub open spec fn marker(severity: Seq<char>) -> Seq<char> {
    ": "@ + severity + ": "@
}

/// The file, line and column of a location `file:line:column`: the two
/// numbers follow the last two colons.
pub open spec fn location_parts(loc: Seq<char>) -> Option<(Seq<char>, nat, nat)> {
    let c1 = last_index(loc, ':');
    let c2 = last_index(loc.take(c1), ':');
    if c1 < 0 || c2 < 0 {
        None
    } else {
        match (parse_usize(loc.subrange(c2 + 1, c1)), parse_usize(loc.skip(c1 + 1))) {
            (Some(line), Some(column)) => Some((loc.take(c2), line, column)),
            _ => None,
        }
    }
}

/// The project path that a compiler names: an absolute path is read
/// relative to the project folder `directory`; any other must pass the
/// check for paths given by the user.
pub open spec fn project_relative(raw: Seq<char>, directory: Seq<char>) -> Option<Seq<char>> {
    if is_absolute(raw) {
        strip_prefix(raw, directory)
    } else {
        match safe_relative(raw, false) {
            Ok(p) => Some(p),
            Err(_) => None,
        }
    }
}

/// The diagnostic of severity `severity` that the line `text` holds, if it
/// names a file under `src` or `include`.
pub open spec fn diagnostic_for(text: Seq<char>, severity: Seq<char>, directory: Seq<char>) -> Option<
    DiagnosticView,
> {
    let m = marker(severity);
    let i = first_occurrence(text, m);
    if i < 0 {
        None
    } else {
        match location_parts(text.take(i)) {
            None => None,
            Some((raw, line, column)) => match project_relative(raw, directory) {
                None => None,
                Some(rel) => if starts_with_name(rel, "src"@) || starts_with_name(
                    rel,
                    "include"@,
                ) {
                    Some(
                        DiagnosticView {
                            severity,
                            file: replace_char(rel, '\\', '/'),
                            line,
                            column,
                            message: trim(text.skip(i + m.len())),
                        },
                    )
                } else {
                    None
                },
            },
        }
    }
}

/// The diagnostic of a line: read as an error, else as a warning, else as
/// a note.
pub open spec fn line_diagnostic(text: Seq<char>, directory: Seq<char>) -> Option<DiagnosticView> {
    match diagnostic_for(text, "error"@, directory) {
        Some(d) => Some(d),
        None => match diagnostic_for(text, "warning"@, directory) {
            Some(d) => Some(d),
            None => diagnostic_for(text, "note"@, directory),
        },
    }
}

/// The diagnostics of the lines `ls`, in order.
pub open spec fn diagnostics_of(ls: Seq<Seq<char>>, directory: Seq<char>) -> Seq<DiagnosticView>
    decreases ls.len(),
{
    if ls.len() == 0 {
        Seq::empty()
    } else {
        let prev = diagnostics_of(ls.drop_last(), directory);
        match line_diagnostic(ls.last(), directory) {
            Some(d) => prev.push(d),
            None => prev,
        }
    }
}

/// The diagnostics of a build log.
pub open spec fn build_diagnostics(output: Seq<char>, directory: Seq<char>) -> Seq<DiagnosticView> {
    diagnostics_of(lines(output), directory)
}

/// The characters `s[from..to]`.
pub fn range_chars(s: &Vec<char>, from: usize, to: usize) -> (r: Vec<char>)
    requires
        from <= to <= s.len(),
    ensures
        r@ == s@.subrange(from as int, to as int),
{
    let mut r: Vec<char> = Vec::new();
    let mut i = from;
    while i < to
        invariant
            from <= i <= to <= s.len(),
            r@ == s@.subrange(from as int, i as int),
        decreases to - i,
    {
        r.push(s[i]);
        proof {
            assert(r@ =~= s@.subrange(from as int, i + 1));
        }
        i = i + 1;
    }
    r
}

fn location_of(loc: &Vec<char>) -> (r: Option<(Vec<char>, usize, usize)>)
    ensures
        match r {
            Some((raw, line, column)) => location_parts(loc@) == Some(
                (raw@, line as nat, column as nat),
            ),
            None => location_parts(loc@) is None,
        },
{
    proof {
        lemma_last_index(loc@, ':');
    }
    let c1 = match find_last(loc, ':') {
        Some(c) => c,
        None => {
            return None;
        },
    };
    let before = range_chars(loc, 0, c1);
    proof {
        assert(before@ =~= loc@.take(c1 as int));
        lemma_last_index(before@, ':');
    }
    let c2 = match find_last(&before, ':') {
        Some(c) => c,
        None => {
            return None;
        },
    };
    let line_text = range_chars(loc, c2 + 1, c1);
    let column_text = range_chars(loc, c1 + 1, loc.len());
    proof {
        assert(column_text@ =~= loc@.skip(c1 + 1));
    }
    let line = match parse_number(&line_text) {
        Some(n) => n,
        None => {
            return None;
        },
    };
    let column = match parse_number(&column_text) {
        Some(n) => n,
        None => {
            return None;
        },
    };
    let raw = range_chars(loc, 0, c2);
    proof {
        assert(raw@ =~= loc@.take(c2 as int));
    }
    Some((raw, line, column))
}

fn relative_of(raw: &Vec<char>, directory: &Vec<char>) -> (r: Option<String>)
    ensures
        match r {
            Some(p) => project_relative(raw@, directory@) == Some(p@),
            None => project_relative(raw@, directory@) is None,
        },
{
    if raw.len() > 0 && raw[0] == '/' {
        strip_prefix_of(raw, directory)
    } else {
        let text = string_of(raw);
        match safe_relative_path(text.as_str(), false) {
            Ok(p) => Some(p),
            Err(_) => None,
        }
    }
}

fn diagnostic_with(text: &Vec<char>, severity: &str, directory: &Vec<char>) -> (r: Option<
    BuildDiagnostic,
>)
    ensures
        match r {
            Some(d) => diagnostic_for(text@, severity@, directory@) == Some(d@),
            None => diagnostic_for(text@, severity@, directory@) is None,
        },
{
    let mut m = owned(": ");
    m.append(severity);
    m.append(": ");
    let mv = chars_of(m.as_str());
    proof {
        assert(mv@ =~= marker(severity@));
    }
    let i = match find_first(text, &mv) {
        Some(i) => i,
        None => {
            return None;
        },
    };
    proof {
        lemma_first_from(text@, mv@, 0);
    }
    let loc = range_chars(text, 0, i);
    proof {
        assert(loc@ =~= text@.take(i as int));
    }
    let (raw, line, column) = match location_of(&loc) {
        Some(parts) => parts,
        None => {
            return None;
        },
    };
    let rel = match relative_of(&raw, directory) {
        Some(p) => p,
        None => {
            return None;
        },
    };
    let rv = chars_of(rel.as_str());
    if !(path_starts_with_name(&rv, "src") || path_starts_with_name(&rv, "include")) {
        return None;
    }
    let file = replaced(rel.as_str(), '\\', '/');
    let message = trimmed_range(text, i + mv.len(), text.len());
    proof {
        assert(text@.subrange(i + mv@.len(), text@.len() as int) =~= text@.skip(i + mv@.len()));
    }
    Some(BuildDiagnostic { severity: owned(severity), file, line, column, message })
}

fn line_diagnostic_of(text: &Vec<char>, directory: &Vec<char>) -> (r: Option<BuildDiagnostic>)
    ensures
        match r {
            Some(d) => line_diagnostic(text@, directory@) == Some(d@),
            None => line_diagnostic(text@, directory@) is None,
        },
{
    proof {
        reveal_strlit("error");
        reveal_strlit("warning");
        reveal_strlit("note");
    }
    match diagnostic_with(text, "error", directory) {
        Some(d) => Some(d),
        None => match diagnostic_with(text, "warning", directory) {
            Some(d) => Some(d),
            None => diagnostic_with(text, "note", directory),
        },
    }
}

/// Reads the compiler messages of a build log into diagnostics that point
/// at files under `src` or `include` of the project at `directory`.
pub fn parse_build_diagnostics(output: &str, directory: &str) -> (r: Vec<BuildDiagnostic>)
    ensures
        diagnostics_view(r@) == build_diagnostics(output@, directory@),
{
    let text = chars_of(output);
    let dir = chars_of(directory);
    let ls = lines_of(&text);
    let ghost lv = views(ls@);
    let mut out: Vec<BuildDiagnostic> = Vec::new();
    let mut i: usize = 0;
    proof {
        assert(lv.take(0) =~= Seq::<Seq<char>>::empty());
        assert(diagnostics_view(out@) =~= Seq::<DiagnosticView>::empty());
    }
    while i < ls.len()
        invariant
            i <= ls.len(),
            lv == views(ls@),
            lv == lines(output@),
            dir@ == directory@,
            diagnostics_view(out@) == diagnostics_of(lv.take(i as int), directory@),
        decreases ls.len() - i,
    {
        let ghost before = out@;
        proof {
            assert(lv.take(i + 1).drop_last() =~= lv.take(i as int));
            assert(lv.take(i + 1).last() == ls@[i as int]@);
        }
        match line_diagnostic_of(&ls[i], &dir) {
            Some(d) => {
                out.push(d);
                proof {
                    assert(diagnostics_view(out@) =~= diagnostics_view(before).push(out@.last()@));
                }
            },
            None => {},
        }
        i = i + 1;
    }
    proof {
        assert(lv.take(ls.len() as int) =~= lv);
    }
    out
}

// ---------------------------------------------------------------------------
// Build reports
// ---------------------------------------------------------------------------
/// What a build tells the editor.
#[derive(Debug)]
pub struct BuildReport {
    pub success: bool,
    pub summary: String,
    pub output: String,
    pub diagnostics: Vec<BuildDiagnostic>,
    pub source_count: usize,
}

/// What a build report says, as the contracts read it.
pub struct BuildReportView {
    pub success: bool,
    pub summary: Seq<char>,
    pub output: Seq<char>,
    pub diagnostics: Seq<DiagnosticView>,
    pub source_count: nat,
}

impl View for BuildReport {
    type V = BuildReportView;

    open spec fn view(&self) -> BuildReportView {
        BuildReportView {
            success: self.success,
            summary: self.summary@,
            output: self.output@,
            diagnostics: diagnostics_view(self.diagnostics@),
            source_count: self.source_count as nat,
        }
    }
}

pub const LUA_READY_SUMMARY: &'static str = "Projet LuaPlayer Plus r163 prêt";

pub const LUA_READY_OUTPUT: &'static str = "Runtime et script préparés. EBOOT.PBP validé.";

pub const BUILD_FAILED: &'static str = "La compilation a échoué";

pub const NO_COMPILER_DETAIL: &'static str = "Le compilateur n’a retourné aucun détail.";

pub const NO_COMPILER_MESSAGE: &'static str = "Compilation terminée sans message.";

pub const INVALID_PBP_PREFIX: &'static str = "La compilation a produit un PBP invalide : ";

/// The number of diagnostics of severity `severity`.
pub open spec fn count_severity(ds: Seq<DiagnosticView>, severity: Seq<char>) -> nat
    decreases ds.len(),
{
    if ds.len() == 0 {
        0
    } else {
        count_severity(ds.drop_last(), severity) + if ds.last().severity == severity {
            1nat
        } else {
            0nat
        }
    }
}

/// `"s"` when `n` is more than one, else nothing.
pub open spec fn plural(n: nat) -> Seq<char> {
    if n > 1 {
        "s"@
    } else {
        Seq::empty()
    }
}

/// The summary of a failed compilation.
pub open spec fn failure_summary(errors: nat) -> Seq<char> {
    if errors == 0 {
        BUILD_FAILED@
    } else {
        "Compilation échouée · "@ + decimal(errors) + " erreur"@ + plural(errors)
    }
}

/// The summary of a successful compilation.
pub open spec fn success_summary(sources: nat, warnings: nat) -> Seq<char> {
    "EBOOT.PBP prêt · "@ + decimal(sources) + " source"@ + plural(sources) + if warnings > 0 {
        " · "@ + decimal(warnings) + " avertissement(s)"@
    } else {
        Seq::<char>::empty()
    }
}

/// The log shown to the user, or `empty_text` when it holds only
/// whitespace.
pub open spec fn shown_log(log: Seq<char>, empty_text: Seq<char>) -> Seq<char> {
    if trim(log).len() == 0 {
        empty_text
    } else {
        log
    }
}

/// What a C++ build reports once `make` has run: `stdout` and `stderr`
/// are its outputs, `succeeded` its exit status, and `eboot` the verdict on
/// the produced `EBOOT.PBP` (only read when `make` succeeded).
pub open spec fn compile_outcome(
    stdout: Seq<char>,
    stderr: Seq<char>,
    directory: Seq<char>,
    succeeded: bool,
    source_count: nat,
    eboot: Result<(), Seq<char>>,
) -> Result<BuildReportView, Seq<char>> {
    let log = truncated_log(stdout + stderr);
    let ds = build_diagnostics(log, directory);
    if !succeeded {
        Ok(
            BuildReportView {
                success: false,
                summary: failure_summary(count_severity(ds, "error"@)),
                output: shown_log(log, NO_COMPILER_DETAIL@),
                diagnostics: ds,
                source_count,
            },
        )
    } else {
        match eboot {
            Err(e) => Err(INVALID_PBP_PREFIX@ + e),
            Ok(()) => Ok(
                BuildReportView {
                    success: true,
                    summary: success_summary(source_count, count_severity(ds, "warning"@)),
                    output: shown_log(log, NO_COMPILER_MESSAGE@),
                    diagnostics: ds,
                    source_count,
                },
            ),
        }
    }
}

pub open spec fn report_result_view(r: Result<BuildReport, String>) -> Result<
    BuildReportView,
    Seq<char>,
> {
    match r {
        Ok(b) => Ok(b@),
        Err(e) => Err(e@),
    }
}

/// The report of a Lua project, whose runtime and script were prepared.
pub fn lua_build_report() -> (r: BuildReport)
    ensures
        r@ == (BuildReportView {
            success: true,
            summary: LUA_READY_SUMMARY@,
            output: LUA_READY_OUTPUT@,
            diagnostics: Seq::empty(),
            source_count: 1,
        }),
{
    let r = BuildReport {
        success: true,
        summary: owned(LUA_READY_SUMMARY),
        output: owned(LUA_READY_OUTPUT),
        diagnostics: Vec::new(),
        source_count: 1,
    };
    proof {
        assert(diagnostics_view(r.diagnostics@) =~= Seq::<DiagnosticView>::empty());
    }
    r
}

fn count_of(ds: &Vec<BuildDiagnostic>, severity: &str) -> (n: usize)
    ensures
        n == count_severity(diagnostics_view(ds@), severity@),
{
    let ghost dv = diagnostics_view(ds@);
    let mut n: usize = 0;
    let mut i: usize = 0;
    proof {
        assert(dv.take(0) =~= Seq::<DiagnosticView>::empty());
    }
    while i < ds.len()
        invariant
            i <= ds.len(),
            dv == diagnostics_view(ds@),
            n == count_severity(dv.take(i as int), severity@),
            n <= i,
        decreases ds.len() - i,
    {
        proof {
            assert(dv.take(i + 1).drop_last() =~= dv.take(i as int));
            assert(dv.take(i + 1).last() == ds@[i as int]@);
        }
        if str_eq(ds[i].severity.as_str(), severity) {
            n = n + 1;
        }
        i = i + 1;
    }
    proof {
        assert(dv.take(ds.len() as int) =~= dv);
    }
    n
}

fn is_blank_log(log: &String) -> (r: bool)
    ensures
        r == (trim(log@).len() == 0),
{
    let v = chars_of(log.as_str());
    let t = trimmed_range(&v, 0, v.len());
    proof {
        assert(v@.subrange(0, v@.len() as int) =~= log@);
    }
    t.as_str().is_empty()
}

fn summary_of_failure(errors: usize) -> (r: String)
    ensures
        r@ == failure_summary(errors as nat),
{
    if errors == 0 {
        return owned(BUILD_FAILED);
    }
    let mut r = owned("Compilation échouée · ");
    push_decimal(&mut r, errors);
    r.append(" erreur");
    if errors > 1 {
        r.append("s");
    }
    proof {
        reveal_strlit("s");
    }
    r
}

fn summary_of_success(sources: usize, warnings: usize) -> (r: String)
    ensures
        r@ == success_summary(sources as nat, warnings as nat),
{
    let mut r = owned("EBOOT.PBP prêt · ");
    push_decimal(&mut r, sources);
    r.append(" source");
    if sources > 1 {
        r.append("s");
    }
    if warnings > 0 {
        r.append(" · ");
        push_decimal(&mut r, warnings);
        r.append(" avertissement(s)");
    }
    proof {
        reveal_strlit("s");
    }
    r
}

/// Turns the outputs of `make` into the build report: on failure the
/// errors are counted; on success the produced `EBOOT.PBP` must have
/// passed its check, whose error is then reported. The log is cut as
/// `truncate_build_log` cuts it, which needs the cut between characters.
pub fn compile_report(
    stdout: &str,
    stderr: &str,
    directory: &str,
    succeeded: bool,
    source_count: usize,
    eboot: Result<(), String>,
) -> (r: Result<BuildReport, String>)
    requires
        byte_len(stdout@ + stderr@) > MAX_BUILD_LOG ==> is_char_boundary(
            stdout@ + stderr@,
            MAX_BUILD_LOG as nat,
        ),
    ensures
        report_result_view(r) == compile_outcome(
            stdout@,
            stderr@,
            directory@,
            succeeded,
            source_count as nat,
            outcome_view(eboot),
        ),
{
    let mut joined = owned(stdout);
    joined.append(stderr);
    let log = truncate_build_log(joined);
    let diagnostics = parse_build_diagnostics(log.as_str(), directory);
    proof {
        reveal_strlit("error");
        reveal_strlit("warning");
    }
    if !succeeded {
        let errors = count_of(&diagnostics, "error");
        let output = if is_blank_log(&log) {
            owned(NO_COMPILER_DETAIL)
        } else {
            log
        };
        return Ok(
            BuildReport {
                success: false,
                summary: summary_of_failure(errors),
                output,
                diagnostics,
                source_count,
            },
        );
    }
    match eboot {
        Err(e) => {
            let mut m = owned(INVALID_PBP_PREFIX);
            m.append(e.as_str());
            Err(m)
        },
        Ok(()) => {
            let warnings = count_of(&diagnostics, "warning");
            let output = if is_blank_log(&log) {
                owned(NO_COMPILER_MESSAGE)
            } else {
                log
            };
            Ok(
                BuildReport {
                    success: true,
                    summary: summary_of_success(source_count, warnings),
                    output,
                    diagnostics,
                    source_count,
                },
            )
        },
    }
}

// ---------------------------------------------------------------------------
// Laws
// ---------------------------------------------------------------------------
/// A kept log is never longer than `MAX_BUILD_LOG` bytes plus the note, and
/// a log that fits is kept as it is.
pub proof fn lemma_truncated_log_bounded(s: Seq<char>)
    requires
        byte_len(s) > MAX_BUILD_LOG ==> is_char_boundary(s, MAX_BUILD_LOG as nat),
    ensures
        byte_len(truncated_log(s)) <= MAX_BUILD_LOG + byte_len(TRUNCATION_NOTE@),
        byte_len(s) <= MAX_BUILD_LOG ==> truncated_log(s) == s,
{
    if byte_len(s) > MAX_BUILD_LOG {
        let k = log_cut(s);
        assert(0 <= k <= s.len() && byte_len(s.take(k)) == MAX_BUILD_LOG);
        lemma_byte_len_concat(s.take(k), TRUNCATION_NOTE@);
    }
}

/// A kept log can itself be cut, and cutting it again changes nothing.
pub proof fn lemma_truncation_is_idempotent(s: Seq<char>)
    requires
        byte_len(s) > MAX_BUILD_LOG ==> is_char_boundary(s, MAX_BUILD_LOG as nat),
    ensures
        byte_len(truncated_log(s)) > MAX_BUILD_LOG ==> is_char_boundary(
            truncated_log(s),
            MAX_BUILD_LOG as nat,
        ),
        truncated_log(truncated_log(s)) == truncated_log(s),
{
    if byte_len(s) > MAX_BUILD_LOG {
        let k = log_cut(s);
        assert(0 <= k <= s.len() && byte_len(s.take(k)) == MAX_BUILD_LOG);
        let t = s.take(k) + TRUNCATION_NOTE@;
        assert(t.take(k) =~= s.take(k));
        assert(is_char_boundary(t, MAX_BUILD_LOG as nat));
        if byte_len(t) > MAX_BUILD_LOG {
            let j = log_cut(t);
            assert(0 <= j <= t.len() && byte_len(t.take(j)) == MAX_BUILD_LOG);
            if j < k {
                lemma_prefix_bytes(t, j, k);
            } else if j > k {
                lemma_prefix_bytes(t, k, j);
            }
            assert(j == k);
        }
    }
}

/// The pieces of a split without an empty last piece.
pub open spec fn without_empty_last(segs: Seq<Seq<char>>) -> Seq<Seq<char>> {
    if segs.len() > 0 && segs.last().len() == 0 {
        segs.drop_last()
    } else {
        segs
    }
}

/// Whether `s` holds no carriage return.
pub open spec fn no_carriage_return(s: Seq<char>) -> bool {
    forall|k: int| 0 <= k < s.len() ==> s[k] != '\r'
}

/// Without carriage returns, the lines of a text are its pieces between
/// newlines, less an empty last one.
proof fn lemma_lines_plain(s: Seq<char>)
    requires
        no_carriage_return(s),
    ensures
        lines(s) == without_empty_last(split(s, '\n')),
{
    let segs = split(s, '\n');
    crate::path::lemma_split_len(s, '\n');
    crate::path::lemma_split_pieces_from(s, '\n', |c: char| c != '\r');
    let d = segs.drop_last();
    assert forall|i: int| 0 <= i < d.len() implies strip_cr(#[trigger] d[i]) == d[i] by {
        assert(d[i] == segs[i]);
        if d[i].len() > 0 {
            assert((|c: char| c != '\r')(segs[i][d[i].len() - 1]));
        }
    }
    assert(d.map_values(|g: Seq<char>| strip_cr(g)) =~= d);
    assert(d.push(segs.last()) =~= segs);
}

/// The diagnostics of lines read one after the other are those of each
/// part in turn.
proof fn lemma_diagnostics_concat(x: Seq<Seq<char>>, y: Seq<Seq<char>>, directory: Seq<char>)
    ensures
        diagnostics_of(x + y, directory) == diagnostics_of(x, directory) + diagnostics_of(
            y,
            directory,
        ),
    decreases y.len(),
{
    if y.len() == 0 {
        assert(x + y =~= x);
        assert(diagnostics_of(x, directory) + diagnostics_of(y, directory) =~= diagnostics_of(
            x,
            directory,
        ));
    } else {
        assert((x + y).drop_last() =~= x + y.drop_last());
        assert((x + y).last() == y.last());
        lemma_diagnostics_concat(x, y.drop_last(), directory);
        let p = diagnostics_of(x, directory);
        let q = diagnostics_of(y.drop_last(), directory);
        match line_diagnostic(y.last(), directory) {
            Some(d) => {
                assert((p + q).push(d) =~= p + q.push(d));
            },
            None => {},
        }
    }
}

/// An empty line holds no diagnostic.
proof fn lemma_empty_line(directory: Seq<char>)
    ensures
        line_diagnostic(Seq::empty(), directory) is None,
{
    reveal_strlit(": ");
    assert(marker("error"@).len() > 0);
    assert(marker("warning"@).len() > 0);
    assert(marker("note"@).len() > 0);
}

/// Dropping an empty last line changes no diagnostic.
proof fn lemma_without_empty_last(segs: Seq<Seq<char>>, directory: Seq<char>)
    ensures
        diagnostics_of(without_empty_last(segs), directory) == diagnostics_of(segs, directory),
{
    if segs.len() > 0 && segs.last().len() == 0 {
        lemma_empty_line(directory);
        assert(segs.last() =~= Seq::<char>::empty());
    }
}

/// The diagnostics of two logs joined by a newline (neither holding a
/// carriage return) are those of the first log followed by those of the
/// second.
pub proof fn lemma_diagnostics_of_joined_logs(a: Seq<char>, b: Seq<char>, directory: Seq<char>)
    requires
        no_carriage_return(a),
        no_carriage_return(b),
    ensures
        build_diagnostics(a.push('\n') + b, directory) == build_diagnostics(a, directory)
            + build_diagnostics(b, directory),
{
    let j = a.push('\n') + b;
    assert forall|k: int| 0 <= k < j.len() implies j[k] != '\r' by {
        if k < a.len() {
            assert(j[k] == a[k]);
        } else if k > a.len() {
            assert(j[k] == b[k - a.len() - 1]);
        }
    }
    lemma_lines_plain(j);
    lemma_lines_plain(a);
    lemma_lines_plain(b);
    let sa = split(a, '\n');
    let sb = split(b, '\n');
    crate::path::lemma_split_concat(a, b, '\n');
    crate::path::lemma_split_len(a, '\n');
    crate::path::lemma_split_len(b, '\n');
    let wb = without_empty_last(sb);
    assert(without_empty_last(sa + sb) =~= sa + wb);
    lemma_diagnostics_concat(sa, wb, directory);
    lemma_without_empty_last(sa, directory);
}

/// Every diagnostic read from a log has the severity `error`, `warning` or
/// `note`, and names a file that, before `\` is read as `/`, is a path of
/// the project under `src` or `include`.
pub proof fn lemma_diagnostics_point_into_sources(output: Seq<char>, directory: Seq<char>)
    ensures
        forall|i: int|
            0 <= i < build_diagnostics(output, directory).len() ==> {
                let d = #[trigger] build_diagnostics(output, directory)[i];
                &&& (d.severity == "error"@ || d.severity == "warning"@ || d.severity == "note"@)
                &&& exists|rel: Seq<char>|
                    #![trigger replace_char(rel, '\\', '/')]
                    d.file == replace_char(rel, '\\', '/') && (starts_with_name(rel, "src"@)
                        || starts_with_name(rel, "include"@))
            },
{
    lemma_diagnostics_of(lines(output), directory);
}

pub open spec fn points_into_sources(d: DiagnosticView) -> bool {
    &&& (d.severity == "error"@ || d.severity == "warning"@ || d.severity == "note"@)
    &&& exists|rel: Seq<char>|
        #![trigger replace_char(rel, '\\', '/')]
        d.file == replace_char(rel, '\\', '/') && (starts_with_name(rel, "src"@) || starts_with_name(
            rel,
            "include"@,
        ))
}

proof fn lemma_diagnostic_for(text: Seq<char>, severity: Seq<char>, directory: Seq<char>)
    requires
        diagnostic_for(text, severity, directory) is Some,
    ensures
        diagnostic_for(text, severity, directory)->Some_0.severity == severity,
        exists|rel: Seq<char>|
            #![trigger replace_char(rel, '\\', '/')]
            diagnostic_for(text, severity, directory)->Some_0.file == replace_char(rel, '\\', '/')
                && (starts_with_name(rel, "src"@) || starts_with_name(rel, "include"@)),
{
    let m = marker(severity);
    let i = first_occurrence(text, m);
    let (raw, line, column) = location_parts(text.take(i))->Some_0;
    let rel = project_relative(raw, directory)->Some_0;
    assert(diagnostic_for(text, severity, directory)->Some_0.file == replace_char(rel, '\\', '/'));
}

proof fn lemma_diagnostics_of(ls: Seq<Seq<char>>, directory: Seq<char>)
    ensures
        forall|i: int|
            0 <= i < diagnostics_of(ls, directory).len() ==> points_into_sources(
                #[trigger] diagnostics_of(ls, directory)[i],
            ),
    decreases ls.len(),
{
    if ls.len() > 0 {
        lemma_diagnostics_of(ls.drop_last(), directory);
        let t = ls.last();
        match line_diagnostic(t, directory) {
            Some(d) => {
                if diagnostic_for(t, "error"@, directory) is Some {
                    lemma_diagnostic_for(t, "error"@, directory);
                } else if diagnostic_for(t, "warning"@, directory) is Some {
                    lemma_diagnostic_for(t, "warning"@, directory);
                } else {
                    lemma_diagnostic_for(t, "note"@, directory);
                }
                assert(points_into_sources(d));
                let prev = diagnostics_of(ls.drop_last(), directory);
                assert forall|i: int| 0 <= i < prev.push(d).len() implies points_into_sources(
                    #[trigger] prev.push(d)[i],
                ) by {
                    if i < prev.len() {
                        assert(prev.push(d)[i] == prev[i]);
                    }
                }
            },
            None => {},
        }
    }
}

// ---------------------------------------------------------------------------
// What a build does
// ---------------------------------------------------------------------------
/// How a project is built.
#[derive(Debug)]
pub enum BuildPlan {
    /// A Lua project: its runtime (empty when none is set) is prepared.
    Lua(String),
    /// A C++ project: its sources are compiled with make.
    Cpp,
}

/// Lua projects are prepared with their runtime; all others are compiled.
pub fn build_plan(language: &str, runtime_version: Option<&str>) -> (r: BuildPlan)
    ensures
        match r {
            BuildPlan::Lua(runtime) => language@ == "lua"@ && runtime@ == match runtime_version {
                Some(v) => v@,
                None => Seq::<char>::empty(),
            },
            BuildPlan::Cpp => language@ != "lua"@,
        },
{
    proof {
        reveal_strlit("lua");
    }
    if str_eq(language, "lua") {
        match runtime_version {
            Some(v) => BuildPlan::Lua(owned(v)),
            None => BuildPlan::Lua(String::new()),
        }
    } else {
        BuildPlan::Cpp
    }
}

/// Whether a diagnostic has the severity `severity`.
pub open spec fn has_severity(severity: Seq<char>) -> spec_fn(DiagnosticView) -> bool {
    |d: DiagnosticView| d.severity == severity
}

proof fn lemma_count_is_filter(ds: Seq<DiagnosticView>, severity: Seq<char>)
    ensures
        count_severity(ds, severity) == ds.filter(has_severity(severity)).len(),
    decreases ds.len(),
{
    reveal(Seq::filter);
    if ds.len() > 0 {
        lemma_count_is_filter(ds.drop_last(), severity);
    }
}

/// What a finished C++ build reports. A build whose `make` failed is
/// reported failed; one whose `make` succeeded is reported successful when
/// its `EBOOT.PBP` passed its check, and is refused with that check's error
/// otherwise. The report shows the kept log (the output of `make`, then
/// its errors, cut at the limit) whenever it holds more than whitespace,
/// and a fixed sentence otherwise; its diagnostics are those of the kept
/// log; a failure counts the error diagnostics and a success counts its
/// sources and the warning diagnostics.
pub proof fn lemma_report_of_a_build(
    stdout: Seq<char>,
    stderr: Seq<char>,
    directory: Seq<char>,
    succeeded: bool,
    source_count: nat,
    eboot: Result<(), Seq<char>>,
)
    ensures
        ({
            let log = truncated_log(stdout + stderr);
            let ds = build_diagnostics(log, directory);
            let errors = ds.filter(has_severity("error"@)).len();
            let warnings = ds.filter(has_severity("warning"@)).len();
            let r = compile_outcome(stdout, stderr, directory, succeeded, source_count, eboot);
            &&& (succeeded && eboot is Err) ==> r == Err::<BuildReportView, Seq<char>>(
                "La compilation a produit un PBP invalide : "@ + eboot->Err_0,
            )
            &&& !(succeeded && eboot is Err) ==> {
                &&& r is Ok
                &&& r->Ok_0.success == succeeded
                &&& r->Ok_0.source_count == source_count
                &&& r->Ok_0.diagnostics == ds
                &&& (trim(log).len() > 0 ==> r->Ok_0.output == log)
                &&& (trim(log).len() == 0 && succeeded ==> r->Ok_0.output
                    == "Compilation terminée sans message."@)
                &&& (trim(log).len() == 0 && !succeeded ==> r->Ok_0.output
                    == "Le compilateur n’a retourné aucun détail."@)
                &&& (!succeeded && errors == 0 ==> r->Ok_0.summary == "La compilation a échoué"@)
                &&& (!succeeded && errors > 0 ==> r->Ok_0.summary == "Compilation échouée · "@
                    + decimal(errors) + " erreur"@ + if errors > 1 {
                    "s"@
                } else {
                    Seq::<char>::empty()
                })
                &&& (succeeded ==> r->Ok_0.summary == "EBOOT.PBP prêt · "@ + decimal(source_count)
                    + " source"@ + (if source_count > 1 {
                    "s"@
                } else {
                    Seq::<char>::empty()
                }) + if warnings > 0 {
                    " · "@ + decimal(warnings) + " avertissement(s)"@
                } else {
                    Seq::<char>::empty()
                })
            }
        }),
{
    let log = truncated_log(stdout + stderr);
    let ds = build_diagnostics(log, directory);
    lemma_count_is_filter(ds, "error"@);
    lemma_count_is_filter(ds, "warning"@);
}

} // verus!
