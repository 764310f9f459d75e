//! Document text, line/column positions, and incremental edits.
//!
//! Text is a sequence of characters; lines are separated by `'\n'`. A
//! protocol position names a line and a column; an edit replaces the span
//! between two positions by new text. Applying a list of edits in order is
//! the contract of `apply_document_edit`.

use vstd::prelude::*;

verus! {

/// A line/column position as the protocol carries it.
#[derive(PartialEq, Eq, Structural, Clone, Copy)]
pub struct Position {
    pub line: u32,
    pub character: u32,
}

/// A half-open span between two positions.
#[derive(PartialEq, Eq, Structural, Clone, Copy)]
pub struct TextSpan {
    pub start: Position,
    pub end: Position,
}

/// Index of the character after the next `'\n'` at or after `from`, or the
/// end of the text.
pub open spec fn next_line_start(s: Seq<char>, from: int) -> int
    decreases s.len() - from when 0 <= from <= s.len()
{
    if from >= s.len() {
        s.len() as int
    } else if s[from] == '\n' {
        from + 1
    } else {
        next_line_start(s, from + 1)
    }
}

/// Index of the first character of line `line` (the end of the text if the
/// line does not exist).
pub open spec fn line_start(s: Seq<char>, line: nat) -> int
    decreases line,
{
    if line == 0 {
        0
    } else {
        next_line_start(s, line_start(s, (line - 1) as nat))
    }
}

/// Index of the first `'\n'` at or after `from`, or the end of the text.
pub open spec fn line_end_from(s: Seq<char>, from: int) -> int
    decreases s.len() - from when 0 <= from <= s.len()
{
    if from >= s.len() {
        s.len() as int
    } else if s[from] == '\n' {
        from
    } else {
        line_end_from(s, from + 1)
    }
}

/// The character offset a position names: the start of its line plus its
/// column, clamped to that line's end.
pub open spec fn offset_spec(s: Seq<char>, p: Position) -> int {
    let ls = line_start(s, p.line as nat);
    let le = line_end_from(s, ls);
    if ls + p.character <= le {
        ls + p.character
    } else {
        le
    }
}

pub proof fn lemma_next_line_start_bounds(s: Seq<char>, from: int)
    requires
        0 <= from <= s.len(),
    ensures
        from <= next_line_start(s, from) <= s.len(),
    decreases s.len() - from,
{
    if from < s.len() && s[from] != '\n' {
        lemma_next_line_start_bounds(s, from + 1);
    }
}

pub proof fn lemma_line_start_bounds(s: Seq<char>, line: nat)
    ensures
        0 <= line_start(s, line) <= s.len(),
    decreases line,
{
    if line > 0 {
        lemma_line_start_bounds(s, (line - 1) as nat);
        lemma_next_line_start_bounds(s, line_start(s, (line - 1) as nat));
    }
}

pub proof fn lemma_line_end_from_bounds(s: Seq<char>, from: int)
    requires
        0 <= from <= s.len(),
    ensures
        from <= line_end_from(s, from) <= s.len(),
        line_end_from(s, from) <= next_line_start(s, from),
    decreases s.len() - from,
{
    if from < s.len() && s[from] != '\n' {
        lemma_line_end_from_bounds(s, from + 1);
    }
}

/// Line starts never decrease as the line number grows.
pub proof fn lemma_line_start_monotonic(s: Seq<char>, a: nat, b: nat)
    requires
        a <= b,
    ensures
        line_start(s, a) <= line_start(s, b),
    decreases b - a,
{
    if a < b {
        lemma_line_start_monotonic(s, a, (b - 1) as nat);
        lemma_line_start_bounds(s, (b - 1) as nat);
        lemma_next_line_start_bounds(s, line_start(s, (b - 1) as nat));
    }
}

/// A position never lies past the start of any later line.
pub proof fn lemma_offset_before_next_line(s: Seq<char>, p: Position)
    ensures
        offset_spec(s, p) <= line_start(s, (p.line + 1) as nat),
    decreases 0nat,
{
    lemma_line_start_bounds(s, p.line as nat);
    lemma_line_end_from_bounds(s, line_start(s, p.line as nat));
}

/// Positions in order name offsets in order: for the spans the protocol
/// sends, whose start precedes their end, an edit never needs to swap its
/// offsets.
pub proof fn lemma_offset_spec_monotonic(s: Seq<char>, p: Position, q: Position)
    requires
        p.line < q.line || (p.line == q.line && p.character <= q.character),
    ensures
        offset_spec(s, p) <= offset_spec(s, q),
{
    if p.line == q.line {
    } else {
        lemma_offset_before_next_line(s, p);
        lemma_line_start_monotonic(s, (p.line + 1) as nat, q.line as nat);
        lemma_line_start_bounds(s, q.line as nat);
        lemma_line_end_from_bounds(s, line_start(s, q.line as nat));
    }
}

/// One content change: a replaced span, or the whole text when `span` is
/// absent.
pub struct TextChange {
    pub span: Option<TextSpan>,
    pub text: Vec<char>,
}

/// The spec-level image of a content change.
pub ghost struct TextChangeView {
    pub span: Option<TextSpan>,
    pub text: Seq<char>,
}

impl View for TextChange {
    type V = TextChangeView;

    open spec fn view(&self) -> TextChangeView {
        TextChangeView { span: self.span, text: self.text@ }
    }
}

/// Applies one change: the replaced span is cut out and the new text put in
/// its place; a change without a span replaces everything. If the span's
/// ends are out of order, the edit degenerates to an insertion at the start
/// offset.
pub open spec fn apply_change_spec(s: Seq<char>, c: TextChangeView) -> Seq<char> {
    match c.span {
        Some(span) => {
            let so = offset_spec(s, span.start);
            let eo = offset_spec(s, span.end);
            let eo2 = if so <= eo {
                eo
            } else {
                so
            };
            s.subrange(0, so) + c.text + s.subrange(eo2, s.len() as int)
        },
        None => c.text,
    }
}

/// Applies a list of changes in order.
pub open spec fn apply_changes_spec(s: Seq<char>, cs: Seq<TextChangeView>) -> Seq<char>
    decreases cs.len(),
{
    if cs.len() == 0 {
        s
    } else {
        apply_changes_spec(apply_change_spec(s, cs[0]), cs.drop_first())
    }
}

/// Peeling one application off the end of a change list.
pub proof fn lemma_apply_changes_snoc(s: Seq<char>, cs: Seq<TextChangeView>, c: TextChangeView)
    ensures
        apply_changes_spec(s, cs.push(c)) == apply_change_spec(apply_changes_spec(s, cs), c),
    decreases cs.len(),
{
    if cs.len() == 0 {
        assert(cs.push(c).drop_first() =~= cs);
        assert(cs.push(c)[0] == c);
        assert(apply_changes_spec(s, cs.push(c)) == apply_changes_spec(
            apply_change_spec(s, c),
            cs,
        ));
        assert(apply_changes_spec(apply_change_spec(s, c), cs) == apply_change_spec(s, c));
        assert(apply_changes_spec(s, cs) == s);
    } else {
        let s1 = apply_change_spec(s, cs[0]);
        assert(cs.push(c)[0] == cs[0]);
        assert(cs.push(c).drop_first() =~= cs.drop_first().push(c));
        lemma_apply_changes_snoc(s1, cs.drop_first(), c);
        assert(apply_changes_spec(s, cs.push(c)) == apply_changes_spec(
            s1,
            cs.drop_first().push(c),
        ));
        assert(apply_changes_spec(s, cs) == apply_changes_spec(s1, cs.drop_first()));
    }
}

/// Computes the offset a position names in `text`.
pub fn offset_of(text: &Vec<char>, p: Position) -> (r: usize)
    ensures
        r == offset_spec(text@, p),
        r <= text@.len(),
{
    let ghost s = text@;
    // Walk to the start of the target line.
    let mut line: u32 = 0;
    let mut ls: usize = 0;
    while line < p.line && ls < text.len()
        invariant
            0 <= ls <= s.len(),
            line <= p.line,
            s == text@,
            ls as int == line_start(s, line as nat),
            line < p.line && ls >= s.len() ==> ls == s.len(),
        decreases p.line - line,
    {
        // Advance to the next line start.
        let mut j: usize = ls;
        while j < text.len() && text[j] != '\n'
            invariant
                ls <= j <= s.len(),
                s == text@,
                forall|k: int| ls <= k < j ==> s[k] != '\n',
                next_line_start(s, ls as int) == next_line_start(s, j as int),
            decreases s.len() - j,
        {
            j = j + 1;
        }
        if j < text.len() {
            ls = j + 1;
        } else {
            ls = j;
        }
        line = line + 1;
    }
    proof {
        if line < p.line {
            // Ran off the end: every later line also starts at the end.
            lemma_line_start_stable_at_end(s, line as nat, p.line as nat);
        }
    }
    // Clamp the column to the end of the line.
    let mut e: usize = ls;
    let target: usize = if (p.character as usize) <= usize::MAX - ls {
        ls + p.character as usize
    } else {
        usize::MAX
    };
    while e < text.len() && text[e] != '\n' && e < target
        invariant
            ls <= e <= s.len(),
            s == text@,
            e <= target,
            forall|k: int| ls <= k < e ==> s[k] != '\n',
            line_end_from(s, ls as int) == line_end_from(s, e as int),
        decreases s.len() - e,
    {
        e = e + 1;
    }
    proof {
        lemma_line_end_from_bounds(s, e as int);
    }
    e
}

/// Once a line starts at the end of the text, every later line does too.
proof fn lemma_line_start_stable_at_end(s: Seq<char>, a: nat, b: nat)
    requires
        a <= b,
        line_start(s, a) == s.len(),
    ensures
        line_start(s, b) == s.len(),
    decreases b - a,
{
    if a < b {
        lemma_line_start_stable_at_end(s, a, (b - 1) as nat);
    }
}

/// Replaces `text[so..eo]` by `insert`.
pub fn splice(text: &Vec<char>, so: usize, eo: usize, insert: &Vec<char>) -> (r: Vec<char>)
    requires
        so <= eo <= text@.len(),
    ensures
        r@ == text@.subrange(0, so as int) + insert@ + text@.subrange(eo as int, text@.len() as int),
{
    let mut out: Vec<char> = Vec::new();
    let mut i: usize = 0;
    while i < so
        invariant
            i <= so <= text@.len(),
            out@.len() == i,
            forall|k: int| 0 <= k < i ==> out@[k] == text@[k],
        decreases so - i,
    {
        out.push(text[i]);
        i = i + 1;
    }
    let mut j: usize = 0;
    while j < insert.len()
        invariant
            j <= insert@.len(),
            so <= eo <= text@.len(),
            out@.len() == so + j,
            forall|k: int| 0 <= k < so ==> out@[k] == text@[k],
            forall|k: int| 0 <= k < j ==> out@[so + k] == insert@[k],
        decreases insert.len() - j,
    {
        out.push(insert[j]);
        j = j + 1;
    }
    let mut m: usize = eo;
    while m < text.len()
        invariant
            eo <= m <= text@.len(),
            so <= eo,
            out@.len() == so + insert@.len() + (m - eo),
            forall|k: int| 0 <= k < so ==> out@[k] == text@[k],
            forall|k: int| 0 <= k < insert@.len() ==> out@[so + k] == insert@[k],
            forall|k: int| eo <= k < m ==> out@[so + insert@.len() + (k - eo)] == text@[k],
        decreases text.len() - m,
    {
        out.push(text[m]);
        m = m + 1;
    }
    assert(out@ =~= text@.subrange(0, so as int) + insert@ + text@.subrange(
        eo as int,
        text@.len() as int,
    ));
    out
}

/// Applies one content change to `text`.
pub fn apply_change(text: &Vec<char>, change: &TextChange) -> (r: Vec<char>)
    ensures
        r@ == apply_change_spec(text@, change@),
{
    match &change.span {
        Some(span) => {
            let so = offset_of(text, span.start);
            let eo = offset_of(text, span.end);
            let eo2 = if so <= eo {
                eo
            } else {
                so
            };
            splice(text, so, eo2, &change.text)
        },
        None => change.text.clone(),
    }
}

/// Applies the changes of one notification, in order. The resulting text is
/// exactly the fold of the changes over the old text.
pub fn apply_document_edit(text: &mut Vec<char>, changes: &Vec<TextChange>)
    ensures
        final(text)@ == apply_changes_spec(old(text)@, changes@.map_values(|c: TextChange| c@)),
{
    let ghost s0 = text@;
    let ghost cvs = changes@.map_values(|c: TextChange| c@);
    let mut i: usize = 0;
    while i < changes.len()
        invariant
            i <= changes@.len(),
            cvs == changes@.map_values(|c: TextChange| c@),
            text@ == apply_changes_spec(s0, cvs.subrange(0, i as int)),
        decreases changes.len() - i,
    {
        let next = apply_change(text, &changes[i]);
        *text = next;
        proof {
            assert(cvs.subrange(0, i + 1) =~= cvs.subrange(0, i as int).push(cvs[i as int]));
            lemma_apply_changes_snoc(s0, cvs.subrange(0, i as int), cvs[i as int]);
        }
        i = i + 1;
    }
    proof {
        assert(cvs.subrange(0, cvs.len() as int) =~= cvs);
    }
}

/// The first line, counted from `line`, on which the texts' remaining line
/// lists differ, comparing pairwise as far as both have lines; 0 when they
/// agree that far.
pub open spec fn first_diff_from(s: Seq<char>, t: Seq<char>, i: int, j: int, line: nat) -> nat
    decreases s.len() - i when 0 <= i <= s.len() && 0 <= j <= t.len() via first_diff_from_decreases
{
    if i >= s.len() || j >= t.len() {
        0
    } else {
        let ie = line_end_from(s, i);
        let je = line_end_from(t, j);
        if s.subrange(i, ie) != t.subrange(j, je) {
            line
        } else if ie >= s.len() || je >= t.len() {
            0
        } else {
            first_diff_from(s, t, ie + 1, je + 1, line + 1)
        }
    }
}

#[via_fn]
proof fn first_diff_from_decreases(s: Seq<char>, t: Seq<char>, i: int, j: int, line: nat) {
    if 0 <= i <= s.len() && 0 <= j <= t.len() {
        lemma_line_end_from_bounds(s, i);
        lemma_line_end_from_bounds(t, j);
    }
}

/// The zero-based number of the first line where the two texts differ, their
/// lines compared pairwise; 0 when they agree as far as both have lines.
pub open spec fn first_divergent_line_spec(s: Seq<char>, t: Seq<char>) -> nat {
    first_diff_from(s, t, 0, 0, 0)
}

/// Finds the index of the first `'\n'` at or after `from`, or the text's end.
pub fn find_line_end(text: &Vec<char>, from: usize) -> (r: usize)
    requires
        from <= text@.len(),
    ensures
        r == line_end_from(text@, from as int),
        from <= r <= text@.len(),
{
    let mut j: usize = from;
    while j < text.len() && text[j] != '\n'
        invariant
            from <= j <= text@.len(),
            line_end_from(text@, from as int) == line_end_from(text@, j as int),
        decreases text.len() - j,
    {
        j = j + 1;
    }
    j
}

/// True when `a[ai..ae]` and `b[bi..be]` hold the same characters.
pub fn ranges_eq(a: &Vec<char>, ai: usize, ae: usize, b: &Vec<char>, bi: usize, be: usize) -> (r: bool)
    requires
        ai <= ae <= a@.len(),
        bi <= be <= b@.len(),
    ensures
        r == (a@.subrange(ai as int, ae as int) == b@.subrange(bi as int, be as int)),
{
    if ae - ai != be - bi {
        assert(a@.subrange(ai as int, ae as int).len() != b@.subrange(bi as int, be as int).len());
        return false;
    }
    let n = ae - ai;
    let mut k: usize = 0;
    while k < n
        invariant
            k <= n,
            ai + n <= a@.len(),
            bi + n <= b@.len(),
            ae == ai + n,
            be == bi + n,
            forall|m: int| 0 <= m < k ==> a@[ai + m] == #[trigger] b@[bi + m],
        decreases n - k,
    {
        if a[ai + k] != b[bi + k] {
            assert(a@.subrange(ai as int, ae as int)[k as int] != b@.subrange(
                bi as int,
                be as int,
            )[k as int]);
            return false;
        }
        k = k + 1;
    }
    assert forall|m: int| 0 <= m < n implies a@.subrange(ai as int, ae as int)[m] == b@.subrange(
        bi as int,
        be as int,
    )[m] by {
        assert(a@[ai + m] == b@[bi + m]);
    }
    assert(a@.subrange(ai as int, ae as int) =~= b@.subrange(bi as int, be as int));
    true
}

/// The zero-based line on which the old and the new text first differ, their
/// lines compared pairwise as far as both have lines; 0 when they agree that
/// far. This seeds the cursor position a build's inverse search uses.
pub fn first_divergent_line(old_text: &Vec<char>, new_text: &Vec<char>) -> (r: usize)
    ensures
        r == first_divergent_line_spec(old_text@, new_text@),
{
    let ghost s = old_text@;
    let ghost t = new_text@;
    let mut i: usize = 0;
    let mut j: usize = 0;
    let mut line: usize = 0;
    while i < old_text.len() && j < new_text.len()
        invariant
            i <= s.len(),
            j <= t.len(),
            s == old_text@,
            t == new_text@,
            line <= i,
            first_divergent_line_spec(s, t) == first_diff_from(s, t, i as int, j as int, line as nat),
        decreases old_text.len() - i,
    {
        let ie = find_line_end(old_text, i);
        let je = find_line_end(new_text, j);
        if !ranges_eq(old_text, i, ie, new_text, j, je) {
            return line;
        }
        if ie >= old_text.len() || je >= new_text.len() {
            return 0;
        }
        i = ie + 1;
        j = je + 1;
        line = line + 1;
    }
    0
}

} // verus!
