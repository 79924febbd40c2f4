//! Character-level text operations: literal search and replace, and escapes.
use vstd::prelude::*;
use vstd::string::StringExecFns;

verus! {

/// The characters of `s`, in order.
pub(crate) fn chars_of(s: &str) -> (v: Vec<char>)
    ensures
        v@ == s@,
{
    let mut v: Vec<char> = Vec::new();
    for c in it: s.chars()
        invariant
            it.seq() == s@,
            v@ == s@.take(it.index() as int),
    {
        v.push(c);
    }
    assert(v@ =~= s@);
    v
}


/// Whether `pat` stands in `s` at position `i`.
pub open spec fn occurs_at(s: Seq<char>, pat: Seq<char>, i: int) -> bool {
    0 <= i && i + pat.len() <= s.len() && s.subrange(i, i + pat.len()) == pat
}

/// Whether `pat` stands anywhere in `s`.
pub open spec fn occurs(s: Seq<char>, pat: Seq<char>) -> bool {
    exists|i: int| occurs_at(s, pat, i)
}

/// `s` with every occurrence of `pat` replaced by `rep`, scanning left to
/// right and never overlapping. An empty `pat` occurs before each character
/// and at the end.
pub open spec fn replace_literal(s: Seq<char>, pat: Seq<char>, rep: Seq<char>) -> Seq<char>
    decreases s.len(),
{
    if pat.len() == 0 {
        if s.len() == 0 {
            rep
        } else {
            rep + seq![s[0]] + replace_literal(s.drop_first(), pat, rep)
        }
    } else if s.len() < pat.len() {
        s
    } else if s.take(pat.len() as int) == pat {
        rep + replace_literal(s.skip(pat.len() as int), pat, rep)
    } else {
        seq![s[0]] + replace_literal(s.drop_first(), pat, rep)
    }
}

/// Relies on String::push: appends one character.
#[verifier::external_body]
fn push_char(s: &mut String, c: char)
    ensures
        final(s)@ == old(s)@.push(c),
{
    s.push(c);
}

/// Whether `pat` stands in `t` at position `i`.
pub(crate) fn matches_at(t: &Vec<char>, pat: &Vec<char>, i: usize) -> (r: bool)
    requires
        i <= t@.len(),
    ensures
        r == occurs_at(t@, pat@, i as int),
{
    let n = t.len();
    if pat.len() > n - i {
        return false;
    }
    let mut j: usize = 0;
    while j < pat.len()
        invariant
            n == t@.len(),
            i + pat@.len() <= t@.len(),
            j <= pat@.len(),
            forall|k: int| 0 <= k < j ==> t@[i + k] == pat@[k],
        decreases pat@.len() - j,
    {
        if t[i + j] != pat[j] {
            assert(t@.subrange(i as int, i + pat@.len())[j as int] != pat@[j as int]);
            return false;
        }
        j = j + 1;
    }
    assert(t@.subrange(i as int, i + pat@.len()) =~= pat@);
    true
}

/// Every occurrence of `search` in `text` replaced by `replacement`, left to
/// right and without overlap; an empty `search` matches before each
/// character and at the end.
pub fn replace_literal_str(text: &str, search: &str, replacement: &str) -> (r: String)
    ensures
        r@ == replace_literal(text@, search@, replacement@),
{
    let t = chars_of(text);
    let pat = chars_of(search);
    let mut out = String::new();
    let mut i: usize = 0;
    assert(t@.skip(0) =~= t@);
    while i < t.len()
        invariant
            t@ == text@,
            pat@ == search@,
            i <= t@.len(),
            out@ + replace_literal(t@.skip(i as int), pat@, replacement@)
                == replace_literal(t@, pat@, replacement@),
        decreases t@.len() - i,
    {
        let ghost rest = t@.skip(i as int);
        let ghost out0 = out@;
        if pat.len() == 0 {
            assert(rest.drop_first() =~= t@.skip(i + 1));
            out.append(replacement);
            push_char(&mut out, t[i]);
            assert(out0 + replace_literal(rest, pat@, replacement@) =~= out@
                + replace_literal(t@.skip(i + 1), pat@, replacement@));
            i = i + 1;
        } else if matches_at(&t, &pat, i) {
            assert(rest.take(pat@.len() as int) =~= t@.subrange(i as int, i + pat@.len()));
            assert(rest.skip(pat@.len() as int) =~= t@.skip(i + pat@.len()));
            out.append(replacement);
            assert(out0 + replace_literal(rest, pat@, replacement@) =~= out@
                + replace_literal(t@.skip(i + pat@.len()), pat@, replacement@));
            i = i + pat.len();
        } else {
            assert(rest.drop_first() =~= t@.skip(i + 1));
            proof {
                if rest.len() >= pat@.len() {
                    assert(rest.take(pat@.len() as int) =~= t@.subrange(
                        i as int,
                        i + pat@.len(),
                    ));
                } else {
                    assert(replace_literal(rest, pat@, replacement@) == rest);
                    assert(replace_literal(rest.drop_first(), pat@, replacement@)
                        == rest.drop_first());
                    assert(rest =~= seq![rest[0]] + rest.drop_first());
                }
            }
            push_char(&mut out, t[i]);
            assert(out0 + replace_literal(rest, pat@, replacement@) =~= out@
                + replace_literal(t@.skip(i + 1), pat@, replacement@));
            i = i + 1;
        }
    }
    if pat.len() == 0 {
        out.append(replacement);
    }
    assert(t@.skip(i as int) =~= Seq::<char>::empty());
    out
}

/// The character that a backslash followed by `c` stands for, if that pair is
/// a recognised escape.
pub open spec fn escape_of(c: char) -> Option<char> {
    if c == 'n' {
        Some('\n')
    } else if c == 't' {
        Some('\t')
    } else if c == 'r' {
        Some('\r')
    } else if c == 'b' {
        Some('\u{8}')
    } else if c == 'f' {
        Some('\u{c}')
    } else if c == '\\' {
        Some('\\')
    } else if c == '\'' {
        Some('\'')
    } else if c == '"' {
        Some('"')
    } else {
        None
    }
}

/// `s` with each recognised two-character escape turned into the character it
/// stands for, left to right; any other backslash is kept as it is.
pub open spec fn unescape_text(s: Seq<char>) -> Seq<char>
    decreases s.len(),
{
    if s.len() == 0 {
        s
    } else if s.len() >= 2 && s[0] == '\\' && escape_of(s[1]) is Some {
        seq![escape_of(s[1])->0] + unescape_text(s.skip(2))
    } else {
        seq![s[0]] + unescape_text(s.drop_first())
    }
}

fn escape_char(c: char) -> (r: Option<char>)
    ensures
        r == escape_of(c),
{
    match c {
        'n' => Some('\n'),
        't' => Some('\t'),
        'r' => Some('\r'),
        'b' => Some('\u{8}'),
        'f' => Some('\u{c}'),
        '\\' => Some('\\'),
        '\'' => Some('\''),
        '"' => Some('"'),
        _ => None,
    }
}

/// Turns each recognised escape (`\n`, `\t`, `\r`, `\b`, `\f`, `\\`, `\'`,
/// `\"`) into its character; an unrecognised or unfinished escape is kept.
pub fn unescape(s: &str) -> (r: String)
    ensures
        r@ == unescape_text(s@),
{
    let t = chars_of(s);
    let mut out = String::new();
    let mut i: usize = 0;
    assert(t@.skip(0) =~= t@);
    while i < t.len()
        invariant
            t@ == s@,
            i <= t@.len(),
            out@ + unescape_text(t@.skip(i as int)) == unescape_text(t@),
        decreases t@.len() - i,
    {
        let ghost rest = t@.skip(i as int);
        let ghost out0 = out@;
        let mut esc: Option<char> = None;
        if t[i] == '\\' && i + 1 < t.len() {
            esc = escape_char(t[i + 1]);
        }
        match esc {
            Some(c) => {
                assert(rest.skip(2) =~= t@.skip(i + 2));
                push_char(&mut out, c);
                assert(out0 + unescape_text(rest) =~= out@ + unescape_text(t@.skip(i + 2)));
                i = i + 2;
            },
            None => {
                assert(rest.drop_first() =~= t@.skip(i + 1));
                push_char(&mut out, t[i]);
                assert(out0 + unescape_text(rest) =~= out@ + unescape_text(t@.skip(i + 1)));
                i = i + 1;
            },
        }
    }
    assert(t@.skip(i as int) =~= Seq::<char>::empty());
    out
}

/// The pieces of `s` between the occurrences of `pat` that a left-to-right,
/// non-overlapping scan finds; `s` whole when `pat` is empty.
pub open spec fn split_literal(s: Seq<char>, pat: Seq<char>) -> Seq<Seq<char>>
    decreases s.len(),
{
    if pat.len() == 0 || s.len() < pat.len() {
        seq![s]
    } else if s.take(pat.len() as int) == pat {
        seq![Seq::<char>::empty()] + split_literal(s.skip(pat.len() as int), pat)
    } else {
        let rest = split_literal(s.drop_first(), pat);
        rest.update(0, seq![s[0]] + rest[0])
    }
}

/// The pieces in order, with `sep` between each two of them.
pub open spec fn join(pieces: Seq<Seq<char>>, sep: Seq<char>) -> Seq<char>
    decreases pieces.len(),
{
    if pieces.len() == 0 {
        Seq::<char>::empty()
    } else if pieces.len() == 1 {
        pieces[0]
    } else {
        pieces[0] + sep + join(pieces.drop_first(), sep)
    }
}

proof fn lemma_split_nonempty(s: Seq<char>, pat: Seq<char>)
    ensures
        split_literal(s, pat).len() >= 1,
    decreases s.len(),
{
    if pat.len() == 0 || s.len() < pat.len() {
    } else if s.take(pat.len() as int) == pat {
        lemma_split_nonempty(s.skip(pat.len() as int), pat);
    } else {
        lemma_split_nonempty(s.drop_first(), pat);
    }
}

proof fn lemma_join_extend_first(pieces: Seq<Seq<char>>, c: char, sep: Seq<char>)
    requires
        pieces.len() >= 1,
    ensures
        join(pieces.update(0, seq![c] + pieces[0]), sep) == seq![c] + join(pieces, sep),
{
    let q = pieces.update(0, seq![c] + pieces[0]);
    if pieces.len() > 1 {
        assert(q.drop_first() =~= pieces.drop_first());
        assert(join(q, sep) =~= seq![c] + join(pieces, sep));
    }
}

/// Splitting a text at the occurrences of a non-empty search string and
/// joining the pieces again with the search string gives the text back;
/// joining them with the replacement gives the literal replacement of the
/// text. So the output, split at the replacement, holds the pieces that lay
/// between the occurrences of the search string.
pub proof fn lemma_literal_split_join(text: Seq<char>, search: Seq<char>, replacement: Seq<char>)
    requires
        search.len() > 0,
    ensures
        join(split_literal(text, search), search) == text,
        join(split_literal(text, search), replacement) == replace_literal(
            text,
            search,
            replacement,
        ),
    decreases text.len(),
{
    let n = search.len() as int;
    if text.len() < n {
    } else if text.take(n) == search {
        let tail = text.skip(n);
        lemma_literal_split_join(tail, search, replacement);
        lemma_split_nonempty(tail, search);
        let pieces = seq![Seq::<char>::empty()] + split_literal(tail, search);
        assert(pieces.drop_first() =~= split_literal(tail, search));
        assert(text =~= search + tail);
        assert(join(pieces, search) =~= Seq::<char>::empty() + search + join(
            split_literal(tail, search),
            search,
        ));
        assert(join(pieces, replacement) =~= Seq::<char>::empty() + replacement + join(
            split_literal(tail, search),
            replacement,
        ));
    } else {
        let tail = text.drop_first();
        lemma_literal_split_join(tail, search, replacement);
        lemma_split_nonempty(tail, search);
        lemma_join_extend_first(split_literal(tail, search), text[0], search);
        lemma_join_extend_first(split_literal(tail, search), text[0], replacement);
        assert(text =~= seq![text[0]] + tail);
    }
}

/// A text in which a non-empty search string does not occur is left as it
/// is by the literal replacement.
pub proof fn lemma_literal_no_occurrence(text: Seq<char>, search: Seq<char>, replacement: Seq<char>)
    requires
        search.len() > 0,
        !occurs(text, search),
    ensures
        replace_literal(text, search, replacement) == text,
    decreases text.len(),
{
    let n = search.len() as int;
    if text.len() >= n {
        assert(!occurs_at(text, search, 0));
        assert(text.take(n) =~= text.subrange(0, n));
        let tail = text.drop_first();
        assert forall|i: int| !occurs_at(tail, search, i) by {
            if occurs_at(tail, search, i) {
                assert(tail.subrange(i, i + n) =~= text.subrange(i + 1, i + 1 + n));
                assert(occurs_at(text, search, i + 1));
            }
        }
        lemma_literal_no_occurrence(tail, search, replacement);
        assert(text =~= seq![text[0]] + tail);
    }
}

/// A text without a backslash holds no escape and is kept as it is.
pub proof fn lemma_unescape_plain(text: Seq<char>)
    requires
        !text.contains('\\'),
    ensures
        unescape_text(text) == text,
    decreases text.len(),
{
    if text.len() > 0 {
        let tail = text.drop_first();
        assert(text[0] != '\\');
        assert(!tail.contains('\\')) by {
            if tail.contains('\\') {
                let i = choose|i: int| 0 <= i < tail.len() && tail[i] == '\\';
                assert(text[i + 1] == '\\');
            }
        }
        lemma_unescape_plain(tail);
        assert(text =~= seq![text[0]] + tail);
    }
}

/// No piece that the split of a text at a non-empty search string yields
/// holds the search string, and the first piece is where the text begins.
pub proof fn lemma_split_pieces_clear(text: Seq<char>, search: Seq<char>)
    requires
        search.len() > 0,
    ensures
        split_literal(text, search).len() >= 1,
        split_literal(text, search)[0].len() <= text.len(),
        text.take(split_literal(text, search)[0].len() as int) == split_literal(text, search)[0],
        forall|j: int|
            0 <= j < split_literal(text, search).len() ==> !occurs(
                #[trigger] split_literal(text, search)[j],
                search,
            ),
    decreases text.len(),
{
    let n = search.len() as int;
    let pieces = split_literal(text, search);
    if text.len() < n {
        assert(text.take(text.len() as int) =~= text);
        assert forall|j: int| 0 <= j < pieces.len() implies !occurs(pieces[j], search) by {
            assert forall|i: int| !occurs_at(text, search, i) by {}
        }
    } else if text.take(n) == search {
        let tail = text.skip(n);
        lemma_split_pieces_clear(tail, search);
        assert(text.take(0) =~= Seq::<char>::empty());
        assert forall|j: int| 0 <= j < pieces.len() implies !occurs(pieces[j], search) by {
            if j == 0 {
                assert forall|i: int| !occurs_at(pieces[0], search, i) by {}
            } else {
                assert(pieces[j] == split_literal(tail, search)[j - 1]);
            }
        }
    } else {
        let tail = text.drop_first();
        lemma_split_pieces_clear(tail, search);
        let rest = split_literal(tail, search);
        let first = seq![text[0]] + rest[0];
        assert(pieces[0] == first);
        assert(text.take(first.len() as int) =~= first) by {
            assert(tail.take(rest[0].len() as int) == rest[0]);
        }
        assert forall|j: int| 0 <= j < pieces.len() implies !occurs(pieces[j], search) by {
            if j == 0 {
                assert forall|i: int| !occurs_at(first, search, i) by {
                    if occurs_at(first, search, i) {
                        if i == 0 {
                            assert(text.take(n) =~= first.subrange(0, n));
                        } else {
                            assert(rest[0].subrange(i - 1, i - 1 + n) =~= first.subrange(
                                i,
                                i + n,
                            ));
                            assert(occurs_at(rest[0], search, i - 1));
                        }
                    }
                }
            } else {
                assert(pieces[j] == rest[j]);
            }
        }
    }
}

} // verus!
