//! Normalized document identifiers.
//!
//! A URI is held as a sequence of characters. Normalization lowercases the
//! scheme (the characters before the first `:`) and, for local-path URIs,
//! canonicalizes a Windows drive letter: the letter is lowercased and an
//! escaped `%3A` after it becomes a plain `:`.

use vstd::prelude::*;

verus! {

/// True for an ASCII uppercase letter.
pub open spec fn is_upper(c: char) -> bool {
    'A' <= c && c <= 'Z'
}

/// True for an ASCII letter.
pub open spec fn is_letter(c: char) -> bool {
    ('A' <= c && c <= 'Z') || ('a' <= c && c <= 'z')
}

/// Lowercases an ASCII uppercase letter; every other character is unchanged.
pub open spec fn lower_char(c: char) -> char {
    if is_upper(c) {
        (((c as u8) + 32) as u8) as char
    } else {
        c
    }
}

pub proof fn lemma_lower_char_idempotent(c: char)
    ensures
        lower_char(lower_char(c)) == lower_char(c),
{
}

/// Index of the first `:` in `s` at or after `i`, or `s.len()` if there is none.
pub open spec fn colon_from(s: Seq<char>, i: int) -> int
    decreases s.len() - i when 0 <= i <= s.len()
{
    if i >= s.len() {
        s.len() as int
    } else if s[i] == ':' {
        i
    } else {
        colon_from(s, i + 1)
    }
}

/// The scheme of a URI ends at its first `:`.
pub open spec fn scheme_end(s: Seq<char>) -> int {
    colon_from(s, 0)
}

pub proof fn lemma_colon_from_bounds(s: Seq<char>, i: int)
    requires
        0 <= i <= s.len(),
    ensures
        i <= colon_from(s, i) <= s.len(),
        forall|j: int| i <= j < colon_from(s, i) ==> s[j] != ':',
        colon_from(s, i) < s.len() ==> s[colon_from(s, i)] == ':',
    decreases s.len() - i,
{
    if i < s.len() && s[i] != ':' {
        lemma_colon_from_bounds(s, i + 1);
    }
}

/// `colon_from` is determined by where the colons stand: the first position
/// `k >= i` that carries a colon (or the end, if none does).
pub proof fn lemma_colon_from_unique(s: Seq<char>, i: int, k: int)
    requires
        0 <= i <= k <= s.len(),
        forall|j: int| i <= j < k ==> s[j] != ':',
        k < s.len() ==> s[k] == ':',
    ensures
        colon_from(s, i) == k,
    decreases k - i,
{
    if i < k {
        lemma_colon_from_unique(s, i + 1, k);
    }
}

/// Two sequences with colons in the same places have the same scheme end.
pub proof fn lemma_scheme_end_same_colons(s: Seq<char>, t: Seq<char>)
    requires
        s.len() == t.len(),
        forall|j: int| 0 <= j < s.len() ==> ((s[j] == ':') <==> (t[j] == ':')),
    ensures
        scheme_end(s) == scheme_end(t),
{
    lemma_colon_from_bounds(s, 0);
    lemma_colon_from_unique(t, 0, scheme_end(s));
}

/// Lowercases the scheme of a URI; the rest is unchanged.
pub open spec fn lower_scheme(s: Seq<char>) -> Seq<char> {
    Seq::new(s.len(), |i: int| if i < scheme_end(s) { lower_char(s[i]) } else { s[i] })
}

/// The eight characters that begin every normalized local-path URI.
pub open spec fn file_prefix() -> Seq<char> {
    seq!['f', 'i', 'l', 'e', ':', '/', '/', '/']
}

/// A local-path URI whose first path segment is a plain drive letter, as in
/// `file:///C:/main.tex`.
pub open spec fn drive_plain(s: Seq<char>) -> bool {
    s.len() >= 10 && s.subrange(0, 8) == file_prefix() && is_letter(s[8]) && s[9] == ':'
}

/// A local-path URI whose drive letter is followed by an escaped colon, as in
/// `file:///C%3A/main.tex`.
pub open spec fn drive_escaped(s: Seq<char>) -> bool {
    s.len() >= 12 && s.subrange(0, 8) == file_prefix() && is_letter(s[8]) && s[9] == '%'
        && s[10] == '3' && (s[11] == 'A' || s[11] == 'a')
}

/// Canonicalizes a drive letter: lowercases it and turns `%3A` into `:`.
pub open spec fn fix_drive(s: Seq<char>) -> Seq<char> {
    if drive_plain(s) {
        s.update(8, lower_char(s[8]))
    } else if drive_escaped(s) {
        s.subrange(0, 8) + seq![lower_char(s[8]), ':'] + s.subrange(12, s.len() as int)
    } else {
        s
    }
}

/// What `normalize_uri` does to the characters of a URI.
pub open spec fn normalize_spec(s: Seq<char>) -> Seq<char> {
    fix_drive(lower_scheme(s))
}

proof fn lemma_lower_scheme_idempotent(s: Seq<char>)
    ensures
        lower_scheme(lower_scheme(s)) == lower_scheme(s),
{
    let t = lower_scheme(s);
    assert forall|j: int| 0 <= j < s.len() implies ((s[j] == ':') <==> (t[j] == ':')) by {
        assert(lower_char(':') == ':');
    }
    lemma_scheme_end_same_colons(s, t);
    assert(lower_scheme(t) =~= t) by {
        assert forall|i: int| 0 <= i < t.len() implies lower_scheme(t)[i] == t[i] by {
            if i < scheme_end(t) {
                lemma_lower_char_idempotent(s[i]);
            }
        }
    }
}

proof fn lemma_fix_drive_keeps_prefix(s: Seq<char>)
    requires
        drive_plain(s) || drive_escaped(s),
    ensures
        fix_drive(s).len() >= 10,
        fix_drive(s).subrange(0, 8) == file_prefix(),
        is_letter(fix_drive(s)[8]) && !is_upper(fix_drive(s)[8]),
        fix_drive(s)[9] == ':',
{
    let r = fix_drive(s);
    if drive_plain(s) {
        assert(r.subrange(0, 8) =~= s.subrange(0, 8));
    } else {
        assert(r.subrange(0, 8) =~= s.subrange(0, 8));
    }
}

proof fn lemma_fix_drive_idempotent(s: Seq<char>)
    ensures
        fix_drive(fix_drive(s)) == fix_drive(s),
{
    if drive_plain(s) || drive_escaped(s) {
        let r = fix_drive(s);
        lemma_fix_drive_keeps_prefix(s);
        assert(drive_plain(r));
        assert(fix_drive(r) =~= r) by {
            lemma_lower_char_idempotent(s[8]);
        }
    }
}

/// Scheme lowercasing does not change an already normalized URI: after
/// `fix_drive`, the characters before the first `:` are the (lowercase)
/// letters of `file`, or they were lowercased already.
proof fn lemma_lower_scheme_of_normalized(s: Seq<char>)
    ensures
        lower_scheme(normalize_spec(s)) == normalize_spec(s),
{
    let t = lower_scheme(s);
    let r = fix_drive(t);
    if drive_plain(t) || drive_escaped(t) {
        lemma_fix_drive_keeps_prefix(t);
        lemma_colon_from_bounds(r, 0);
        assert(r.subrange(0, 8)[4] == ':');
        assert(r[4] == ':');
        lemma_colon_from_unique(r, 0, 4);
        assert(lower_scheme(r) =~= r) by {
            assert forall|i: int| 0 <= i < r.len() implies lower_scheme(r)[i] == r[i] by {
                if i < 4 {
                    assert(r[i] == r.subrange(0, 8)[i]);
                    assert(r.subrange(0, 8) == file_prefix());
                }
            }
        }
    } else {
        lemma_lower_scheme_idempotent(s);
    }
}

/// URI normalization is idempotent: normalizing a normalized URI changes
/// nothing.
pub proof fn lemma_normalize_idempotent(s: Seq<char>)
    ensures
        normalize_spec(normalize_spec(s)) == normalize_spec(s),
{
    let n = normalize_spec(s);
    lemma_lower_scheme_of_normalized(s);
    if drive_plain(lower_scheme(s)) || drive_escaped(lower_scheme(s)) {
        lemma_fix_drive_idempotent(lower_scheme(s));
    } else {
        lemma_lower_scheme_idempotent(s);
        lemma_fix_drive_idempotent(lower_scheme(s));
    }
}

/// A document identifier: the characters of its URI.
pub struct Uri {
    pub text: Vec<char>,
}

impl View for Uri {
    type V = Seq<char>;

    open spec fn view(&self) -> Seq<char> {
        self.text@
    }
}

impl Uri {
    pub fn from_chars(text: Vec<char>) -> (r: Uri)
        ensures
            r@ == text@,
    {
        Uri { text }
    }

    pub fn duplicate(&self) -> (r: Uri)
        ensures
            r@ == self@,
    {
        Uri { text: self.text.clone() }
    }

    pub fn equals(&self, other: &Uri) -> (r: bool)
        ensures
            r == (self@ == other@),
    {
        chars_eq(&self.text, &other.text)
    }
}

/// Character-wise equality of two texts.
pub fn chars_eq(a: &Vec<char>, b: &Vec<char>) -> (r: bool)
    ensures
        r == (a@ == b@),
{
    if a.len() != b.len() {
        assert(a@ != b@);
        return false;
    }
    let mut i: usize = 0;
    while i < a.len()
        invariant
            i <= a.len(),
            a@.len() == b@.len(),
            forall|j: int| 0 <= j < i ==> a@[j] == b@[j],
        decreases a.len() - i,
    {
        if a[i] != b[i] {
            assert(a@ != b@);
            return false;
        }
        i = i + 1;
    }
    assert(a@ =~= b@);
    true
}

fn lower_char_exec(c: char) -> (r: char)
    ensures
        r == lower_char(c),
{
    if 'A' <= c && c <= 'Z' {
        ((c as u8) + 32) as char
    } else {
        c
    }
}

pub fn is_letter_exec(c: char) -> (r: bool)
    ensures
        r == is_letter(c),
{
    ('A' <= c && c <= 'Z') || ('a' <= c && c <= 'z')
}

/// Normalizes a URI in place: the scheme is lowercased and a Windows drive
/// letter is canonicalized.
pub fn normalize_uri(uri: &mut Uri)
    ensures
        final(uri)@ == normalize_spec(old(uri)@),
{
    let s = &uri.text;
    let ghost s0 = s@;

    // Find the end of the scheme: the first `:`.
    let mut se: usize = 0;
    while se < s.len() && s[se] != ':'
        invariant
            se <= s@.len(),
            s@ == s0,
            forall|j: int| 0 <= j < se ==> s@[j] != ':',
        decreases s.len() - se,
    {
        se = se + 1;
    }
    proof {
        lemma_colon_from_unique(s0, 0, se as int);
    }

    // Lowercase the scheme.
    let mut out: Vec<char> = Vec::new();
    let mut i: usize = 0;
    while i < s.len()
        invariant
            i <= s@.len(),
            s@ == s0,
            se as int == scheme_end(s0),
            out@.len() == i,
            forall|j: int| 0 <= j < i ==> out@[j] == lower_scheme(s0)[j],
        decreases s.len() - i,
    {
        if i < se {
            out.push(lower_char_exec(s[i]));
        } else {
            out.push(s[i]);
        }
        i = i + 1;
    }
    assert(out@ =~= lower_scheme(s0));
    let ghost t = lower_scheme(s0);

    // Canonicalize a drive letter, if one stands after `file:///`.
    let has_prefix = out.len() >= 8 && out[0] == 'f' && out[1] == 'i' && out[2] == 'l'
        && out[3] == 'e' && out[4] == ':' && out[5] == '/' && out[6] == '/' && out[7] == '/';
    proof {
        if has_prefix {
            assert(t.subrange(0, 8) =~= file_prefix());
        } else {
            assert(t.len() >= 8 && t.subrange(0, 8) == file_prefix() ==> (t[0] == 'f' && t[1]
                == 'i' && t[2] == 'l' && t[3] == 'e' && t[4] == ':' && t[5] == '/' && t[6] == '/'
                && t[7] == '/'));
        }
    }
    if has_prefix && out.len() >= 10 && is_letter_exec(out[8]) && out[9] == ':' {
        let lowered = lower_char_exec(out[8]);
        out.set(8, lowered);
        assert(out@ =~= fix_drive(t));
    } else if has_prefix && out.len() >= 12 && is_letter_exec(out[8]) && out[9] == '%' && out[10]
        == '3' && (out[11] == 'A' || out[11] == 'a') {
        let mut fixed: Vec<char> = Vec::new();
        let mut k: usize = 0;
        while k < 8
            invariant
                k <= 8,
                out@ == t,
                t.len() >= 12,
                fixed@.len() == k,
                forall|j: int| 0 <= j < k ==> fixed@[j] == t[j],
            decreases 8 - k,
        {
            fixed.push(out[k]);
            k = k + 1;
        }
        fixed.push(lower_char_exec(out[8]));
        fixed.push(':');
        let mut m: usize = 12;
        while m < out.len()
            invariant
                12 <= m <= t.len(),
                out@ == t,
                t.len() >= 12,
                fixed@.len() == m - 2,
                forall|j: int| 0 <= j < 8 ==> fixed@[j] == t[j],
                fixed@[8] == lower_char(t[8]),
                fixed@[9] == ':',
                forall|j: int| 12 <= j < m ==> fixed@[j - 2] == t[j],
            decreases out.len() - m,
        {
            fixed.push(out[m]);
            m = m + 1;
        }
        assert(fixed@ =~= fix_drive(t));
        out = fixed;
    } else {
        assert(!drive_plain(t) && !drive_escaped(t));
        assert(out@ == fix_drive(t));
    }

    uri.text = out;
}

} // verus!
