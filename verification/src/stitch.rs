//! Annotations stitched into a prompt: ordered by priority, file and line,
//! each rendered by a template with its selection shortened in the middle,
//! and as many of them as the budget takes.
//!
//! The budget is counted in the bytes of the prompt's UTF-8 encoding.

use crate::annotation::{opt_text, texts, views, Annotation, AnnotationView};
use crate::lines::{file_lines, lines_view, read_lines};
use crate::resync::copy_range;
use crate::search::{find_first, first_match};
use crate::store::{less_than, same_text, text_less};
use crate::text::{chars_of, push_char, string_of, trim_bounds, trimmed};
use vstd::prelude::*;
use vstd::string::StringExecFns;
use vstd::utf8::encode_utf8;

verus! {

/// The template of a prompt.
#[derive(Debug, Clone, Copy, PartialEq, Eq, Structural)]
pub enum TemplateId {
    Concise,
    Detailed,
}

/// How many annotations a prompt was made of, and how large it is.
#[derive(Debug, Clone)]
pub struct StitchStats {
    pub total: usize,
    pub used: usize,
    pub truncated: bool,
    pub chars: usize,
}

/// A prompt, and the numbers that describe it.
#[derive(Debug, Clone)]
pub struct StitchResult {
    pub prompt: String,
    pub stats: StitchStats,
}

/// The characters that the concise template keeps at each end of a selection.
pub const KEEP_CHARS: usize = 60;

/// The length up to which the concise template keeps a selection whole.
pub const WHOLE_CHARS: usize = 120;

/// The lines that the detailed template keeps at each end of a selection.
pub const KEEP_LINES: usize = 20;

/// The number of lines up to which the detailed template keeps a selection
/// whole.
pub const WHOLE_LINES: usize = 40;

/// `c` as a small letter if it is a capital ASCII letter, else `c`.
pub open spec fn ascii_lower(c: char) -> char {
    if 'A' <= c <= 'Z' {
        ((c as u32) + 32) as char
    } else {
        c
    }
}

/// `s` with its capital ASCII letters made small.
pub open spec fn ascii_lowered(s: Seq<char>) -> Seq<char> {
    Seq::new(s.len(), |i: int| ascii_lower(s[i]))
}

/// Whether `s`, its capital ASCII letters made small, is `word`.
pub fn is_word(s: &str, word: &str) -> (r: bool)
    ensures
        r == (ascii_lowered(s@) == word@),
{
    let x = chars_of(s);
    let y = chars_of(word);
    if x.len() != y.len() {
        return false;
    }
    let mut i: usize = 0;
    while i < x.len()
        invariant
            x@ == s@,
            y@ == word@,
            x@.len() == y@.len(),
            i <= x@.len(),
            forall|j: int| 0 <= j < i ==> ascii_lower(x@[j]) == y@[j],
        decreases x@.len() - i,
    {
        let c: char = x[i];
        let u: u32 = c as u32;
        let lu: u32 = if 65 <= u && u <= 90 {
            u + 32
        } else {
            u
        };
        let d: char = y[i];
        assert(ascii_lower(c) as u32 == lu);
        if lu != d as u32 {
            assert(ascii_lowered(s@)[i as int] != word@[i as int]);
            return false;
        }
        proof {
            vstd::utf8::char_u32_cast(d, lu);
            vstd::utf8::char_u32_cast(ascii_lower(c), lu);
        }
        i += 1;
    }
    assert(ascii_lowered(s@) =~= word@);
    true
}

impl TemplateId {
    /// The template that `s` names: the detailed one for `detailed` in any
    /// mix of capital and small letters, the concise one for anything else.
    pub fn parse(s: &str) -> (r: TemplateId)
        ensures
            r == if ascii_lowered(s@) == "detailed"@ {
                TemplateId::Detailed
            } else {
                TemplateId::Concise
            },
    {
        if is_word(s, "detailed") {
            TemplateId::Detailed
        } else {
            TemplateId::Concise
        }
    }
}

/// The version of the templates.
pub fn version() -> (r: &'static str)
    ensures
        r@ == "0.1.0"@,
{
    "0.1.0"
}

/// The number of bytes of the UTF-8 encoding of `s`.
pub open spec fn byte_len(s: Seq<char>) -> nat {
    encode_utf8(s).len()
}

/// The decimal digit for `d`, which is below 10.
pub open spec fn digit(d: int) -> char {
    seq!['0', '1', '2', '3', '4', '5', '6', '7', '8', '9'][d]
}

/// `n` in decimal digits, without leading zeros.
pub open spec fn digits(n: nat) -> Seq<char>
    decreases n,
{
    if n < 10 {
        seq![digit(n as int)]
    } else {
        digits(n / 10).push(digit((n % 10) as int))
    }
}

/// `n` in decimal, with a `-` before the digits of a negative number.
pub open spec fn decimal(n: int) -> Seq<char> {
    if n < 0 {
        seq!['-'] + digits((-n) as nat)
    } else {
        digits(n as nat)
    }
}

/// The rank of a priority: `P0` before `P1` before `P2` before any other, and
/// before none.
pub open spec fn rank(p: Option<Seq<char>>) -> int {
    match p {
        Some(s) => if s == "P0"@ {
            0
        } else if s == "P1"@ {
            1
        } else if s == "P2"@ {
            2
        } else {
            3
        },
        None => 3,
    }
}

/// `a` comes before `b` in a prompt: by rank of priority, then by path of the
/// file in the order of texts, then by first line.
pub open spec fn comes_before(a: AnnotationView, b: AnnotationView) -> bool {
    let ra = rank(a.priority);
    let rb = rank(b.priority);
    ra < rb || (ra == rb && (text_less(a.file_path, b.file_path) || (a.file_path == b.file_path
        && a.start_line < b.start_line)))
}

/// Where `a` goes among the ordered `sorted`: before the first that it comes
/// before, behind all others.
pub open spec fn place_of(sorted: Seq<AnnotationView>, a: AnnotationView) -> int
    decreases sorted.len(),
{
    if sorted.len() == 0 || comes_before(a, sorted[0]) {
        0
    } else {
        1 + place_of(sorted.drop_first(), a)
    }
}

/// The annotations in the order of a prompt; those of which none comes before
/// the other stay in the order in which they were given.
pub open spec fn in_order(anns: Seq<AnnotationView>) -> Seq<AnnotationView>
    decreases anns.len(),
{
    if anns.len() == 0 {
        Seq::empty()
    } else {
        let front = in_order(anns.drop_last());
        front.insert(place_of(front, anns.last()), anns.last())
    }
}

/// What `place_of` is, without recursion.
pub proof fn lemma_place_of(sorted: Seq<AnnotationView>, a: AnnotationView, k: int)
    requires
        0 <= k <= sorted.len(),
        forall|j: int| 0 <= j < k ==> !comes_before(a, #[trigger] sorted[j]),
        k < sorted.len() ==> comes_before(a, sorted[k]),
    ensures
        place_of(sorted, a) == k,
    decreases sorted.len(),
{
    if sorted.len() > 0 && k > 0 {
        let f = sorted.drop_first();
        assert(!comes_before(a, sorted[0]));
        assert forall|j: int| 0 <= j < k - 1 implies !comes_before(a, #[trigger] f[j]) by {
            assert(f[j] == sorted[j + 1]);
        }
        lemma_place_of(f, a, k - 1);
    }
}

/// The line that stands for what was left out of a selection: `count` of
/// `unit`.
pub open spec fn omitted_line(count: nat, unit: Seq<char>) -> Seq<char> {
    "<<<OMITTED ~"@ + digits(count) + " "@ + unit + ">>>\n"@
}

/// A selection shortened in the middle by characters: whole up to `whole`
/// characters; beyond that its first and its last `keep` characters, with a
/// line between them that says how many were left out.
pub open spec fn collapsed_chars(s: Seq<char>, keep: int, whole: int) -> Seq<char> {
    if s.len() <= whole || s.len() <= keep + keep {
        s
    } else {
        let head = s.take(keep);
        let closed = if keep > 0 && head.last() == '\n' {
            head
        } else {
            head.push('\n')
        };
        closed + omitted_line((s.len() - keep - keep) as nat, "CHARS"@) + s.skip(s.len() - keep)
    }
}

/// `lines`, each with a `'\n'` behind it.
pub open spec fn ended_lines(lines: Seq<Seq<char>>) -> Seq<char>
    decreases lines.len(),
{
    if lines.len() == 0 {
        Seq::empty()
    } else {
        ended_lines(lines.drop_last()) + lines.last() + seq!['\n']
    }
}

/// A selection shortened in the middle by lines: whole up to `whole` lines;
/// beyond that its first and its last `keep` lines, with a line between them
/// that says how many were left out, and without a `'\n'` at the end.
pub open spec fn collapsed_lines(s: Seq<char>, keep: int, whole: int) -> Seq<char> {
    let lines = file_lines(s);
    if lines.len() <= whole || lines.len() <= keep + keep {
        s
    } else {
        (ended_lines(lines.take(keep)) + omitted_line(
            (lines.len() - keep - keep) as nat,
            "LINES"@,
        ) + ended_lines(lines.skip(lines.len() - keep))).drop_last()
    }
}

/// The selection of an annotation as a template shows it.
pub open spec fn snippet(template: TemplateId, a: AnnotationView) -> Seq<char> {
    match template {
        TemplateId::Concise => collapsed_chars(
            trimmed(a.selected_text),
            KEEP_CHARS as int,
            WHOLE_CHARS as int,
        ),
        TemplateId::Detailed => collapsed_lines(
            trimmed(a.selected_text),
            KEEP_LINES as int,
            WHOLE_LINES as int,
        ),
    }
}

/// The fence around a snippet: three backticks, or four where the snippet
/// holds three in a row.
pub open spec fn fence(snip: Seq<char>) -> Seq<char> {
    if first_match(snip, "```"@, 0) is Some {
        "````"@
    } else {
        "```"@
    }
}

/// `parts` with a `,` between each two of them.
pub open spec fn joined(parts: Seq<Seq<char>>) -> Seq<char>
    decreases parts.len(),
{
    if parts.len() == 0 {
        Seq::empty()
    } else if parts.len() == 1 {
        parts[0]
    } else {
        joined(parts.drop_last()) + seq![','] + parts.last()
    }
}

/// A column of a span in the detailed template: `mark` and the column, or
/// nothing where the column is absent.
pub open spec fn column_text(mark: Seq<char>, col: Option<i64>) -> Seq<char> {
    match col {
        Some(c) => mark + decimal(c as int),
        None => Seq::empty(),
    }
}

/// What follows the head of an item: the snippet between its fences.
pub open spec fn fenced(snip: Seq<char>) -> Seq<char> {
    "\n  "@ + fence(snip) + "\n"@ + snip + "\n"@ + fence(snip) + "\n\n"@
}

/// The tags of an annotation as the detailed template shows them.
pub open spec fn tags_text(tags: Option<Seq<Seq<char>>>) -> Seq<char> {
    match tags {
        Some(t) => joined(t),
        None => Seq::empty(),
    }
}

/// The priority of an annotation as the detailed template shows it.
pub open spec fn priority_text(priority: Option<Seq<char>>) -> Seq<char> {
    match priority {
        Some(p) => p,
        None => "P1"@,
    }
}

/// The span of an annotation as the templates show it.
pub open spec fn lines_text(a: AnnotationView) -> Seq<char> {
    "L"@ + decimal(a.start_line as int) + "-L"@ + decimal(a.end_line as int)
}

/// One annotation as the template renders it.
pub open spec fn item_text(template: TemplateId, a: AnnotationView) -> Seq<char> {
    match template {
        TemplateId::Concise => "- ["@ + a.file_path + ":"@ + lines_text(a) + "] "@ + trimmed(
            a.comment,
        ) + fenced(snippet(template, a)),
        TemplateId::Detailed => "- file: "@ + a.file_path + "\n  span: "@ + lines_text(a)
            + column_text(":"@, a.start_column) + column_text("-"@, a.end_column)
            + "\n  tags: "@ + tags_text(a.tags) + "  priority: "@ + priority_text(a.priority)
            + "\n  comment: "@ + trimmed(a.comment) + "\n  selected:"@ + fenced(
            snippet(template, a),
        ),
    }
}

/// The head of a prompt.
pub open spec fn header(template: TemplateId) -> Seq<char> {
    match template {
        TemplateId::Concise => "# Annotations (Concise)\n\n"@
            + "> 说明: 片段中若发生省略，将使用 <<<OMITTED ~N CHARS>>> 进行标记；请勿臆测缺失内容，定位以文件路径与行号为准。\n\n"@,
        TemplateId::Detailed => "# Annotations (Detailed)\n\n"@
            + "> 说明: 片段中若发生省略，将使用 <<<OMITTED ~N LINES>>> 进行标记；请勿臆测缺失内容，定位以文件路径与行号为准。\n\n"@,
    }
}

/// How many characters of `item` from index `j` on start before byte
/// `remain` of its encoding, added to `j`.
pub open spec fn cut_from(item: Seq<char>, remain: int, j: int) -> int
    decreases item.len() - j,
{
    if 0 <= j < item.len() && byte_len(item.take(j)) < remain {
        cut_from(item, remain, j + 1)
    } else {
        j
    }
}

/// The part of an item that is too large for the budget: its characters that
/// start within the `remain` bytes that are left.
pub open spec fn hard_cut(item: Seq<char>, remain: int) -> Seq<char> {
    item.take(cut_from(item, remain, 0))
}

/// The prompt that grows from `out`, which holds `used` items, by the items
/// of `items` in turn, within `max` bytes: an item that does not fit ends the
/// prompt, and is left out unless it is the first, of which the part that
/// fits is taken. The result is the prompt and the number of items in it.
pub open spec fn stitched(
    template: TemplateId,
    max: int,
    items: Seq<AnnotationView>,
    out: Seq<char>,
    used: int,
) -> (Seq<char>, int)
    decreases items.len(),
{
    if items.len() == 0 {
        (out, used)
    } else {
        let item = item_text(template, items[0]);
        if byte_len(out) + byte_len(item) > max {
            if used > 0 {
                (out, used)
            } else {
                (out + hard_cut(item, max - byte_len(out)), used + 1)
            }
        } else {
            stitched(template, max, items.drop_first(), out + item, used + 1)
        }
    }
}

/// Appends the characters `s` to `out`.
pub fn append_chars(out: &mut Vec<char>, s: &[char])
    ensures
        final(out)@ == old(out)@ + s@,
{
    let mut i: usize = 0;
    assert(out@ =~= old(out)@ + s@.take(0));
    while i < s.len()
        invariant
            i <= s@.len(),
            out@ == old(out)@ + s@.take(i as int),
        decreases s@.len() - i,
    {
        out.push(s[i]);
        assert(s@.take(i as int).push(s@[i as int]) =~= s@.take(i + 1));
        assert(out@ =~= old(out)@ + s@.take(i + 1));
        i += 1;
    }
    assert(s@.take(i as int) =~= s@);
}

/// Appends the text `s` to `out`.
pub fn append_text(out: &mut Vec<char>, s: &str)
    ensures
        final(out)@ == old(out)@ + s@,
{
    let v = chars_of(s);
    append_chars(out, &v);
}

/// The decimal digit for `d`.
fn digit_of(d: u64) -> (c: char)
    requires
        d < 10,
    ensures
        c == digit(d as int),
{
    if d == 0 {
        '0'
    } else if d == 1 {
        '1'
    } else if d == 2 {
        '2'
    } else if d == 3 {
        '3'
    } else if d == 4 {
        '4'
    } else if d == 5 {
        '5'
    } else if d == 6 {
        '6'
    } else if d == 7 {
        '7'
    } else if d == 8 {
        '8'
    } else {
        '9'
    }
}

/// Appends `n` in decimal digits to `out`.
pub fn append_digits(out: &mut Vec<char>, n: u64)
    ensures
        final(out)@ == old(out)@ + digits(n as nat),
    decreases n,
{
    if n >= 10 {
        append_digits(out, n / 10);
    }
    out.push(digit_of(n % 10));
    proof {
        if n >= 10 {
            assert(out@ =~= old(out)@ + digits(n as nat));
        } else {
            assert(out@ =~= old(out)@ + digits(n as nat));
        }
    }
}

/// Appends `n` in decimal to `out`.
pub fn append_decimal(out: &mut Vec<char>, n: i64)
    ensures
        final(out)@ == old(out)@ + decimal(n as int),
{
    if n < 0 {
        out.push('-');
        let m: u64 = (-(n as i128)) as u64;
        append_digits(out, m);
        assert(out@ =~= old(out)@ + decimal(n as int));
    } else {
        append_digits(out, n as u64);
    }
}

/// Appends the line that stands for what was left out.
fn append_omitted(out: &mut Vec<char>, count: usize, unit: &str)
    ensures
        final(out)@ == old(out)@ + omitted_line(count as nat, unit@),
{
    append_text(out, "<<<OMITTED ~");
    append_digits(out, count as u64);
    append_text(out, " ");
    append_text(out, unit);
    append_text(out, ">>>\n");
    assert(out@ =~= old(out)@ + omitted_line(count as nat, unit@));
}

/// A selection shortened in the middle by characters.
pub fn collapse_middle_chars(s: &[char], keep: usize, whole: usize) -> (out: Vec<char>)
    ensures
        out@ == collapsed_chars(s@, keep as int, whole as int),
{
    let n = s.len();
    if n <= whole || n <= keep || n - keep <= keep {
        let out = copy_range(s, 0, n);
        assert(s@.subrange(0, n as int) =~= s@);
        return out;
    }
    let mut out = copy_range(s, 0, keep);
    assert(s@.subrange(0, keep as int) =~= s@.take(keep as int));
    if !(keep > 0 && s[keep - 1] == '\n') {
        out.push('\n');
    }
    append_omitted(&mut out, n - keep - keep, "CHARS");
    let tail = copy_range(s, n - keep, n);
    assert(s@.subrange(n - keep, n as int) =~= s@.skip(n - keep));
    append_chars(&mut out, &tail);
    out
}

/// A selection shortened in the middle by lines.
pub fn collapse_middle_lines(s: &[char], keep: usize, whole: usize) -> (out: Vec<char>)
    ensures
        out@ == collapsed_lines(s@, keep as int, whole as int),
{
    let lines = read_lines(s);
    let n = lines.len();
    if n <= whole || n <= keep || n - keep <= keep {
        let out = copy_range(s, 0, s.len());
        assert(s@.subrange(0, s@.len() as int) =~= s@);
        return out;
    }
    let ghost all = lines_view(lines@);
    let mut out: Vec<char> = Vec::new();
    let mut i: usize = 0;
    assert(all.take(0) =~= Seq::<Seq<char>>::empty());
    while i < keep
        invariant
            i <= keep < n,
            n == lines@.len(),
            all == lines_view(lines@),
            out@ == ended_lines(all.take(i as int)),
        decreases keep - i,
    {
        assert(all.take(i + 1).drop_last() =~= all.take(i as int));
        assert(all.take(i + 1).last() == lines@[i as int]@);
        let ghost before = out@;
        append_chars(&mut out, &lines[i]);
        out.push('\n');
        assert(out@ =~= before + lines@[i as int]@ + seq!['\n']);
        i += 1;
    }
    append_omitted(&mut out, n - keep - keep, "LINES");
    let ghost mid = out@;
    let mut j: usize = n - keep;
    let ghost tail = all.skip(n - keep);
    assert(tail.take(0) =~= Seq::<Seq<char>>::empty());
    assert(out@ =~= mid + ended_lines(tail.take(0)));
    while j < n
        invariant
            n - keep <= j <= n,
            keep < n,
            n == lines@.len(),
            all == lines_view(lines@),
            tail == all.skip(n - keep),
            out@ == mid + ended_lines(tail.take(j - (n - keep))),
        decreases n - j,
    {
        let ghost k = j - (n - keep);
        assert(tail.take(k + 1).drop_last() =~= tail.take(k));
        assert(tail.take(k + 1).last() == lines@[j as int]@);
        let ghost before = out@;
        append_chars(&mut out, &lines[j]);
        out.push('\n');
        assert(out@ =~= mid + (ended_lines(tail.take(k)) + lines@[j as int]@ + seq!['\n']));
        j += 1;
    }
    assert(tail.take(keep as int) =~= tail);
    assert(out@.len() > 0) by {
        reveal_strlit(">>>\n");
        assert(omitted_line((n - keep - keep) as nat, "LINES"@).len() > 0);
    }
    out.pop();
    out
}

/// The rank of a priority.
fn rank_of(p: &Option<String>) -> (r: u8)
    ensures
        r == rank(opt_text(*p)),
{
    match p {
        Some(s) => {
            if same_text(s.as_str(), "P0") {
                0
            } else if same_text(s.as_str(), "P1") {
                1
            } else if same_text(s.as_str(), "P2") {
                2
            } else {
                3
            }
        },
        None => 3,
    }
}

/// Whether `a` comes before `b` in a prompt.
pub fn before(a: &Annotation, b: &Annotation) -> (r: bool)
    ensures
        r == comes_before(a@, b@),
{
    let ra = rank_of(&a.priority);
    let rb = rank_of(&b.priority);
    if ra < rb {
        true
    } else if ra > rb {
        false
    } else if less_than(a.file_path.as_str(), b.file_path.as_str()) {
        true
    } else if same_text(a.file_path.as_str(), b.file_path.as_str()) {
        a.start_line < b.start_line
    } else {
        false
    }
}

/// The annotations in the order of a prompt.
pub fn order(anns: &Vec<Annotation>) -> (r: Vec<Annotation>)
    ensures
        views(r@) == in_order(views(anns@)),
{
    let mut out: Vec<Annotation> = Vec::new();
    let mut i: usize = 0;
    let ghost all = views(anns@);
    assert(all.take(0) =~= Seq::<AnnotationView>::empty());
    assert(views(out@) =~= Seq::<AnnotationView>::empty());
    while i < anns.len()
        invariant
            i <= anns@.len(),
            all == views(anns@),
            views(out@) == in_order(all.take(i as int)),
        decreases anns@.len() - i,
    {
        let a = &anns[i];
        let ghost front = views(out@);
        let mut k: usize = 0;
        while k < out.len() && !before(a, &out[k])
            invariant
                k <= out@.len(),
                front == views(out@),
                forall|j: int| 0 <= j < k ==> !comes_before(a@, #[trigger] front[j]),
            decreases out@.len() - k,
        {
            k += 1;
        }
        proof {
            lemma_place_of(front, a@, k as int);
            assert(all.take(i + 1).drop_last() =~= all.take(i as int));
            assert(all.take(i + 1).last() == a@);
        }
        out.insert(k, a.copy());
        assert(views(out@) =~= front.insert(k as int, a@));
        i += 1;
    }
    assert(all.take(i as int) =~= all);
    out
}

/// Appends `s` without the white space at its two ends.
fn append_trimmed(out: &mut Vec<char>, s: &str)
    ensures
        final(out)@ == old(out)@ + trimmed(s@),
{
    let v = chars_of(s);
    let (a, b) = trim_bounds(&v);
    let t = copy_range(&v, a, b);
    append_chars(out, &t);
}

/// The selection of an annotation as the template shows it.
pub fn snippet_of(template: TemplateId, a: &Annotation) -> (r: Vec<char>)
    ensures
        r@ == snippet(template, a@),
{
    let v = chars_of(a.selected_text.as_str());
    let (x, y) = trim_bounds(&v);
    let raw = copy_range(&v, x, y);
    match template {
        TemplateId::Concise => collapse_middle_chars(&raw, KEEP_CHARS, WHOLE_CHARS),
        TemplateId::Detailed => collapse_middle_lines(&raw, KEEP_LINES, WHOLE_LINES),
    }
}

/// Appends the snippet between its fences.
fn append_fenced(out: &mut Vec<char>, snip: &[char])
    ensures
        final(out)@ == old(out)@ + fenced(snip@),
{
    let ticks = chars_of("```");
    let four = find_first(snip, &ticks, 0).is_some();
    append_text(out, "\n  ");
    if four {
        append_text(out, "````");
    } else {
        append_text(out, "```");
    }
    append_text(out, "\n");
    append_chars(out, snip);
    append_text(out, "\n");
    if four {
        append_text(out, "````");
    } else {
        append_text(out, "```");
    }
    append_text(out, "\n\n");
    assert(out@ =~= old(out)@ + fenced(snip@));
}

/// Appends the span of an annotation.
fn append_lines_text(out: &mut Vec<char>, a: &Annotation)
    ensures
        final(out)@ == old(out)@ + lines_text(a@),
{
    append_text(out, "L");
    append_decimal(out, a.start_line);
    append_text(out, "-L");
    append_decimal(out, a.end_line);
    assert(out@ =~= old(out)@ + lines_text(a@));
}

/// Appends a column with its mark, or nothing where the column is absent.
fn append_column(out: &mut Vec<char>, mark: &str, col: Option<i64>)
    ensures
        final(out)@ == old(out)@ + column_text(mark@, col),
{
    match col {
        Some(c) => {
            append_text(out, mark);
            append_decimal(out, c);
            assert(out@ =~= old(out)@ + column_text(mark@, col));
        },
        None => {
            assert(out@ =~= old(out)@ + column_text(mark@, col));
        },
    }
}

/// Appends the tags with a `,` between each two of them.
fn append_tags(out: &mut Vec<char>, tags: &Option<Vec<String>>)
    ensures
        final(out)@ == old(out)@ + tags_text(crate::annotation::opt_texts(*tags)),
{
    match tags {
        None => {
            assert(out@ =~= old(out)@ + Seq::<char>::empty());
        },
        Some(t) => {
            let ghost all = texts(t@);
            let mut i: usize = 0;
            assert(all.take(0) =~= Seq::<Seq<char>>::empty());
            assert(out@ =~= old(out)@ + joined(all.take(0)));
            while i < t.len()
                invariant
                    i <= t@.len(),
                    all == texts(t@),
                    out@ == old(out)@ + joined(all.take(i as int)),
                decreases t@.len() - i,
            {
                assert(all.take(i + 1).drop_last() =~= all.take(i as int));
                assert(all.take(i + 1).last() == t@[i as int]@);
                let ghost before = joined(all.take(i as int));
                if i > 0 {
                    out.push(',');
                }
                append_text(out, t[i].as_str());
                proof {
                    if i == 0 {
                        assert(before =~= Seq::<char>::empty());
                        assert(out@ =~= old(out)@ + t@[i as int]@);
                    } else {
                        assert(out@ =~= old(out)@ + (before + seq![','] + t@[i as int]@));
                    }
                }
                i += 1;
            }
            assert(all.take(i as int) =~= all);
        },
    }
}

/// One annotation as the template renders it.
pub fn render_item(template: TemplateId, a: &Annotation) -> (r: Vec<char>)
    ensures
        r@ == item_text(template, a@),
{
    let snip = snippet_of(template, a);
    let mut out: Vec<char> = Vec::new();
    match template {
        TemplateId::Concise => {
            append_text(&mut out, "- [");
            append_text(&mut out, a.file_path.as_str());
            append_text(&mut out, ":");
            append_lines_text(&mut out, a);
            append_text(&mut out, "] ");
            append_trimmed(&mut out, a.comment.as_str());
            append_fenced(&mut out, &snip);
            assert(out@ =~= item_text(template, a@));
        },
        TemplateId::Detailed => {
            append_text(&mut out, "- file: ");
            append_text(&mut out, a.file_path.as_str());
            append_text(&mut out, "\n  span: ");
            append_lines_text(&mut out, a);
            append_column(&mut out, ":", a.start_column);
            append_column(&mut out, "-", a.end_column);
            append_text(&mut out, "\n  tags: ");
            append_tags(&mut out, &a.tags);
            append_text(&mut out, "  priority: ");
            match &a.priority {
                Some(p) => {
                    append_text(&mut out, p.as_str());
                },
                None => {
                    append_text(&mut out, "P1");
                },
            }
            append_text(&mut out, "\n  comment: ");
            append_trimmed(&mut out, a.comment.as_str());
            append_text(&mut out, "\n  selected:");
            append_fenced(&mut out, &snip);
            assert(out@ =~= item_text(template, a@));
        },
    }
    out
}

/// The head of a prompt.
fn header_of(template: TemplateId) -> (r: String)
    ensures
        r@ == header(template),
{
    match template {
        TemplateId::Concise => {
            let mut out = "# Annotations (Concise)\n\n".to_owned();
            out.append(
                "> 说明: 片段中若发生省略，将使用 <<<OMITTED ~N CHARS>>> 进行标记；请勿臆测缺失内容，定位以文件路径与行号为准。\n\n",
            );
            out
        },
        TemplateId::Detailed => {
            let mut out = "# Annotations (Detailed)\n\n".to_owned();
            out.append(
                "> 说明: 片段中若发生省略，将使用 <<<OMITTED ~N LINES>>> 进行标记；请勿臆测缺失内容，定位以文件路径与行号为准。\n\n",
            );
            out
        },
    }
}

/// The number of bytes of the UTF-8 encoding of `s`.
pub fn bytes_of(s: &str) -> (n: usize)
    ensures
        n == byte_len(s@),
{
    s.as_bytes().len()
}

/// The characters of `item` that start within the first `remain` bytes of its
/// encoding.
fn cut_prefix(item: &[char], remain: usize) -> (p: String)
    ensures
        p@ == hard_cut(item@, remain as int),
{
    let mut p = String::new();
    let mut j: usize = 0;
    assert(item@.take(0) =~= Seq::<char>::empty());
    while j < item.len() && bytes_of(p.as_str()) < remain
        invariant
            j <= item@.len(),
            p@ == item@.take(j as int),
            cut_from(item@, remain as int, 0) == cut_from(item@, remain as int, j as int),
        decreases item@.len() - j,
    {
        push_char(&mut p, item[j]);
        assert(item@.take(j as int).push(item@[j as int]) =~= item@.take(j + 1));
        j += 1;
    }
    p
}

/// The prompt of the annotations `anns` by the template `template`, within
/// `max_chars` bytes.
///
/// The annotations are taken in the order of priority, file and first line.
/// The prompt starts with the head of the template; each annotation follows as
/// the template renders it, as long as the prompt stays within the budget. The
/// first annotation that does not fit ends the prompt; if that is the very
/// first annotation, the part of it that fits is taken.
pub fn generate_prompt(template: TemplateId, max_chars: usize, anns: Vec<Annotation>) -> (r:
    StitchResult)
    ensures
        r.prompt@ == stitched(
            template,
            max_chars as int,
            in_order(views(anns@)),
            header(template),
            0,
        ).0,
        r.stats.used == stitched(
            template,
            max_chars as int,
            in_order(views(anns@)),
            header(template),
            0,
        ).1,
        r.stats.total == anns@.len(),
        r.stats.truncated == (r.stats.used < r.stats.total),
        r.stats.chars == byte_len(r.prompt@),
{
    let sorted = order(&anns);
    let total = anns.len();
    let ghost all = views(sorted@);
    let ghost max = max_chars as int;
    let mut out = header_of(template);
    let mut i: usize = 0;
    assert(all.skip(0) =~= all);
    assert(all.len() == total) by {
        assert(sorted@.len() == all.len());
        lemma_in_order_len(views(anns@));
    }
    while i < sorted.len()
        invariant
            i <= sorted@.len(),
            all == views(sorted@),
            all.len() == total,
            total == anns@.len(),
            max == max_chars as int,
            stitched(template, max, in_order(views(anns@)), header(template), 0) == stitched(
                template,
                max,
                all.skip(i as int),
                out@,
                i as int,
            ),
            all == in_order(views(anns@)),
        decreases sorted@.len() - i,
    {
        proof {
            assert(all.skip(i as int)[0] == sorted@[i as int]@);
            assert(all.skip(i as int).drop_first() =~= all.skip(i + 1));
        }
        let item_chars = render_item(template, &sorted[i]);
        let item = string_of(&item_chars);
        let out_len = bytes_of(out.as_str());
        let item_len = bytes_of(item.as_str());
        if out_len > max_chars || item_len > max_chars - out_len {
            if i > 0 {
                return StitchResult {
                    prompt: out,
                    stats: StitchStats { total, used: i, truncated: i < total, chars: out_len },
                };
            }
            let remain: usize = if out_len >= max_chars {
                0
            } else {
                max_chars - out_len
            };
            let part = cut_prefix(&item_chars, remain);
            assert(hard_cut(item_chars@, max - byte_len(out@)) == part@);
            out.append(part.as_str());
            let chars = bytes_of(out.as_str());
            return StitchResult {
                prompt: out,
                stats: StitchStats { total, used: 1, truncated: 1 < total, chars },
            };
        }
        out.append(item.as_str());
        i += 1;
    }
    assert(all.skip(i as int) =~= Seq::<AnnotationView>::empty());
    let chars = bytes_of(out.as_str());
    StitchResult { prompt: out, stats: StitchStats { total, used: i, truncated: false, chars } }
}

/// The order of a prompt holds as many annotations as were given.
pub proof fn lemma_in_order_len(anns: Seq<AnnotationView>)
    ensures
        in_order(anns).len() == anns.len(),
    decreases anns.len(),
{
    if anns.len() > 0 {
        lemma_in_order_len(anns.drop_last());
        lemma_place_bounds(in_order(anns.drop_last()), anns.last());
    }
}

/// The place of an annotation among others is an index among them, or just
/// behind them.
pub proof fn lemma_place_bounds(sorted: Seq<AnnotationView>, a: AnnotationView)
    ensures
        0 <= place_of(sorted, a) <= sorted.len(),
    decreases sorted.len(),
{
    if sorted.len() > 0 && !comes_before(a, sorted[0]) {
        lemma_place_bounds(sorted.drop_first(), a);
    }
}

} // verus!


