//! Text as it is compared with expected output: lines trimmed of white space,
//! empty lines dropped; bytes as upper-case hex pairs; the value a one-letter
//! string stands for.
use vstd::prelude::*;
use vstd::utf8::encode_utf8;
use crate::text::{hex_text, zero_pad, join, lemma_join_push, push_char, push_str, push_hex, push_zeros};

verus! {

/// White space as `char::is_whitespace` knows it (the Unicode `White_Space`
/// characters).
pub open spec fn is_space(c: char) -> bool {
    c == '\t' || c == '\n' || c == '\u{B}' || c == '\u{C}' || c == '\r' || c == ' ' || c == '\u{85}'
        || c == '\u{A0}' || c == '\u{1680}' || ('\u{2000}' <= c && c <= '\u{200A}') || c == '\u{2028}'
        || c == '\u{2029}' || c == '\u{202F}' || c == '\u{205F}' || c == '\u{3000}'
}

/// `s` without its leading white space.
pub open spec fn trim_start(s: Seq<char>) -> Seq<char>
    decreases s.len(),
{
    if s.len() > 0 && is_space(s[0]) {
        trim_start(s.drop_first())
    } else {
        s
    }
}

/// `s` without its trailing white space.
pub open spec fn trim_end(s: Seq<char>) -> Seq<char>
    decreases s.len(),
{
    if s.len() > 0 && is_space(s.last()) {
        trim_end(s.drop_last())
    } else {
        s
    }
}

/// `s` without leading and trailing white space.
pub open spec fn trimmed(s: Seq<char>) -> Seq<char> {
    trim_end(trim_start(s))
}

/// The lines of `s` that end in a newline, and the text after the last
/// newline.
pub open spec fn split_lines(s: Seq<char>) -> (Seq<Seq<char>>, Seq<char>)
    decreases s.len(),
{
    if s.len() == 0 {
        (Seq::empty(), Seq::empty())
    } else {
        let (ls, cur) = split_lines(s.drop_last());
        if s.last() == '\n' {
            (ls.push(cur), Seq::empty())
        } else {
            (ls, cur.push(s.last()))
        }
    }
}

/// The pieces of `s` between newlines.
pub open spec fn pieces(s: Seq<char>) -> Seq<Seq<char>> {
    split_lines(s).0.push(split_lines(s).1)
}

/// The trimmed lines that are not empty.
pub open spec fn kept(ls: Seq<Seq<char>>) -> Seq<Seq<char>>
    decreases ls.len(),
{
    if ls.len() == 0 {
        Seq::empty()
    } else {
        let k = kept(ls.drop_last());
        let t = trimmed(ls.last());
        if t.len() > 0 {
            k.push(t)
        } else {
            k
        }
    }
}

/// The text with each line trimmed, empty lines dropped, and the lines
/// joined by newlines.
pub open spec fn normalized(s: Seq<char>) -> Seq<char> {
    join(kept(pieces(s)), "\n"@)
}

/// Whether a character is white space.
pub(crate) fn is_space_char(c: char) -> (b: bool)
    ensures
        b == is_space(c),
{
    c == '\t' || c == '\n' || c == '\u{B}' || c == '\u{C}' || c == '\r' || c == ' ' || c == '\u{85}'
        || c == '\u{A0}' || c == '\u{1680}' || ('\u{2000}' <= c && c <= '\u{200A}') || c == '\u{2028}'
        || c == '\u{2029}' || c == '\u{202F}' || c == '\u{205F}' || c == '\u{3000}'
}

proof fn lemma_trim_start_skip(s: Seq<char>, i: int)
    requires
        0 <= i < s.len(),
        is_space(s[i]),
    ensures
        trim_start(s.subrange(i, s.len() as int)) == trim_start(s.subrange(i + 1, s.len() as int)),
{
    assert(s.subrange(i, s.len() as int).drop_first() =~= s.subrange(i + 1, s.len() as int));
}

proof fn lemma_trim_end_skip(s: Seq<char>, j: int)
    requires
        0 < j <= s.len(),
        is_space(s[j - 1]),
    ensures
        trim_end(s.subrange(0, j)) == trim_end(s.subrange(0, j - 1)),
{
    assert(s.subrange(0, j).drop_last() =~= s.subrange(0, j - 1));
}

/// Appends the trimmed `line`, after a newline unless it is the first line
/// kept, if it is not empty; says whether it was.
pub(crate) fn push_kept(out: &mut String, line: &Vec<char>, first: bool) -> (kept_one: bool)
    ensures
        kept_one == (trimmed(line@).len() > 0),
        final(out)@ == if trimmed(line@).len() > 0 {
            if first { old(out)@ + trimmed(line@) } else { old(out)@ + "\n"@ + trimmed(line@) }
        } else {
            old(out)@
        },
{
    let n = line.len();
    let mut i: usize = 0;
    assert(line@.subrange(0, n as int) =~= line@);
    while i < n && is_space_char(line[i])
        invariant
            i <= n,
            n == line@.len(),
            trim_start(line@) == trim_start(line@.subrange(i as int, n as int)),
        decreases n - i,
    {
        proof {
            lemma_trim_start_skip(line@, i as int);
        }
        i = i + 1;
    }
    let ghost rest = line@.subrange(i as int, n as int);
    assert(trim_start(rest) == rest) by {
        if rest.len() > 0 {
            assert(rest[0] == line@[i as int]);
        }
    }
    let mut j: usize = n;
    assert(rest.subrange(0, (j - i) as int) =~= rest);
    while j > i && is_space_char(line[j - 1])
        invariant
            i <= j <= n,
            n == line@.len(),
            rest == line@.subrange(i as int, n as int),
            trim_end(rest) == trim_end(rest.subrange(0, (j - i) as int)),
        decreases j,
    {
        proof {
            assert(rest[(j - i) - 1] == line@[j - 1]);
            lemma_trim_end_skip(rest, (j - i) as int);
        }
        j = j - 1;
    }
    let ghost t = rest.subrange(0, (j - i) as int);
    assert(trim_end(t) == t) by {
        if t.len() > 0 {
            assert(t.last() == line@[j - 1]);
        }
    }
    assert(trimmed(line@) == t);
    if j == i {
        return false;
    }
    if !first {
        push_str(out, "\n");
    }
    let ghost before = out@;
    let mut k: usize = i;
    while k < j
        invariant
            i <= k <= j <= n,
            n == line@.len(),
            t == line@.subrange(i as int, j as int),
            out@ == before + line@.subrange(i as int, k as int),
        decreases j - k,
    {
        push_char(out, line[k]);
        assert(line@.subrange(i as int, k + 1) =~= line@.subrange(i as int, k as int).push(line@[k as int]));
        k = k + 1;
    }
    assert(t =~= line@.subrange(i as int, j as int));
    true
}

/// A string's lines trimmed of white space, without empty lines, joined by
/// newlines.
pub fn normalize_str(s: &str) -> (r: String)
    ensures
        r@ == normalized(s@),
{
    let mut out = String::new();
    let mut line: Vec<char> = Vec::new();
    let mut first = true;
    let ghost mut done: Seq<Seq<char>> = Seq::empty();
    let ghost mut seen: Seq<char> = Seq::empty();
    broadcast use vstd::string::axiom_spec_iter;
    for c in it: s.chars()
        invariant
            it.seq() == s@,
            seen == s@.subrange(0, it.index() as int),
            split_lines(seen) == (done, line@),
            out@ == join(kept(done), "\n"@),
            first == (kept(done).len() == 0),
    {
        let ghost prev = seen;
        proof {
            seen = seen.push(c);
            assert(seen =~= s@.subrange(0, it.index() + 1));
            assert(seen.drop_last() =~= prev);
        }
        if c == '\n' {
            let kept_one = push_kept(&mut out, &line, first);
            proof {
                lemma_join_push(kept(done), trimmed(line@), "\n"@);
                assert(done.push(line@).drop_last() =~= done);
                done = done.push(line@);
            }
            if kept_one {
                first = false;
            }
            line = Vec::new();
            assert(line@ =~= Seq::<char>::empty());
        } else {
            line.push(c);
        }
    }
    let kept_one = push_kept(&mut out, &line, first);
    proof {
        lemma_join_push(kept(done), trimmed(line@), "\n"@);
        assert(done.push(line@).drop_last() =~= done);
        assert(seen =~= s@);
    }
    out
}

/// No newline in a text.
pub open spec fn no_newline(s: Seq<char>) -> bool {
    forall|i: int| 0 <= i < s.len() ==> s[i] != '\n'
}

/// A line as normalization keeps it: not empty, no newline, no white space at
/// either end.
pub open spec fn clean_line(l: Seq<char>) -> bool {
    &&& l.len() > 0
    &&& no_newline(l)
    &&& !is_space(l[0])
    &&& !is_space(l.last())
}

pub(crate) proof fn lemma_trim_start_shape(s: Seq<char>)
    ensures
        no_newline(s) ==> no_newline(trim_start(s)),
        trim_start(s).len() > 0 ==> !is_space(trim_start(s)[0]),
        trim_start(s).len() <= s.len(),
        trim_start(s) == s.subrange(s.len() - trim_start(s).len(), s.len() as int),
    decreases s.len(),
{
    if s.len() > 0 && is_space(s[0]) {
        lemma_trim_start_shape(s.drop_first());
        let t = trim_start(s.drop_first());
        assert(s.drop_first().subrange(s.drop_first().len() - t.len(), s.drop_first().len() as int)
            =~= s.subrange(s.len() - t.len(), s.len() as int));
    } else {
        assert(s.subrange(0, s.len() as int) =~= s);
    }
}

proof fn lemma_trim_end_shape(s: Seq<char>)
    ensures
        no_newline(s) ==> no_newline(trim_end(s)),
        trim_end(s).len() > 0 ==> !is_space(trim_end(s).last()),
        trim_end(s).len() <= s.len(),
        trim_end(s) == s.subrange(0, trim_end(s).len() as int),
    decreases s.len(),
{
    if s.len() > 0 && is_space(s.last()) {
        lemma_trim_end_shape(s.drop_last());
        let t = trim_end(s.drop_last());
        assert(s.drop_last().subrange(0, t.len() as int) =~= s.subrange(0, t.len() as int));
    } else {
        assert(s.subrange(0, s.len() as int) =~= s);
    }
}

/// A trimmed line that is not empty is clean, and trimming it again changes
/// nothing.
proof fn lemma_trimmed_clean(s: Seq<char>)
    requires
        no_newline(s),
    ensures
        trimmed(s).len() > 0 ==> clean_line(trimmed(s)),
        clean_line(trimmed(s)) ==> trimmed(trimmed(s)) == trimmed(s),
{
    let a = trim_start(s);
    lemma_trim_start_shape(s);
    lemma_trim_end_shape(a);
    let t = trim_end(a);
    if t.len() > 0 {
        assert(t[0] == a[0]);
        lemma_clean_fixed(t);
    }
}

/// A clean line is its own trimmed form.
proof fn lemma_clean_fixed(l: Seq<char>)
    requires
        l.len() > 0,
        !is_space(l[0]),
        !is_space(l.last()),
    ensures
        trimmed(l) == l,
{
    assert(trim_start(l) == l);
    assert(trim_end(l) == l);
}

/// The lines of a text have no newline.
proof fn lemma_split_no_newline(s: Seq<char>)
    ensures
        no_newline(split_lines(s).1),
        forall|i: int| 0 <= i < split_lines(s).0.len() ==> no_newline(#[trigger] split_lines(s).0[i]),
    decreases s.len(),
{
    if s.len() > 0 {
        lemma_split_no_newline(s.drop_last());
        let (ls, cur) = split_lines(s.drop_last());
        if s.last() != '\n' {
            assert forall|i: int| 0 <= i < cur.push(s.last()).len() implies cur.push(s.last())[i] != '\n' by {
                if i < cur.len() {
                    assert(cur.push(s.last())[i] == cur[i]);
                }
            }
        } else {
            assert forall|i: int| 0 <= i < ls.push(cur).len() implies no_newline(#[trigger] ls.push(cur)[i]) by {
                if i < ls.len() {
                    assert(ls.push(cur)[i] == ls[i]);
                }
            }
        }
    }
}

/// The kept lines are clean.
proof fn lemma_kept_clean(ls: Seq<Seq<char>>)
    requires
        forall|i: int| 0 <= i < ls.len() ==> no_newline(#[trigger] ls[i]),
    ensures
        forall|i: int| 0 <= i < kept(ls).len() ==> clean_line(#[trigger] kept(ls)[i]),
    decreases ls.len(),
{
    if ls.len() > 0 {
        let rest = ls.drop_last();
        assert forall|i: int| 0 <= i < rest.len() implies no_newline(#[trigger] rest[i]) by {
            assert(rest[i] == ls[i]);
        }
        lemma_kept_clean(rest);
        assert(no_newline(ls[ls.len() - 1]));
        lemma_trimmed_clean(ls.last());
        let k = kept(rest);
        let t = trimmed(ls.last());
        if t.len() > 0 {
            assert forall|i: int| 0 <= i < k.push(t).len() implies clean_line(#[trigger] k.push(t)[i]) by {
                if i < k.len() {
                    assert(k.push(t)[i] == k[i]);
                }
            }
        }
    }
}

/// Clean lines are all kept, unchanged.
proof fn lemma_kept_of_clean(ls: Seq<Seq<char>>)
    requires
        forall|i: int| 0 <= i < ls.len() ==> clean_line(#[trigger] ls[i]),
    ensures
        kept(ls) == ls,
    decreases ls.len(),
{
    if ls.len() > 0 {
        let rest = ls.drop_last();
        assert forall|i: int| 0 <= i < rest.len() implies clean_line(#[trigger] rest[i]) by {
            assert(rest[i] == ls[i]);
        }
        lemma_kept_of_clean(rest);
        assert(clean_line(ls[ls.len() - 1]));
        lemma_clean_fixed(ls.last());
        assert(rest.push(ls.last()) =~= ls);
    }
}

/// Appending text without a newline extends the current line.
proof fn lemma_split_append(x: Seq<char>, b: Seq<char>)
    requires
        no_newline(b),
    ensures
        split_lines(x + b) == (split_lines(x).0, split_lines(x).1 + b),
    decreases b.len(),
{
    if b.len() == 0 {
        assert(x + b =~= x);
        assert(split_lines(x).1 + b =~= split_lines(x).1);
    } else {
        let b1 = b.drop_last();
        assert(no_newline(b1)) by {
            assert forall|i: int| 0 <= i < b1.len() implies b1[i] != '\n' by {
                assert(b1[i] == b[i]);
            }
        }
        lemma_split_append(x, b1);
        assert((x + b).drop_last() =~= x + b1);
        assert((x + b).last() == b.last());
        assert(b[b.len() - 1] != '\n');
        assert((split_lines(x).1 + b1).push(b.last()) =~= split_lines(x).1 + b);
    }
}

/// Lines without newlines, joined by newlines, split back into the same
/// lines.
proof fn lemma_split_join(ls: Seq<Seq<char>>)
    requires
        ls.len() > 0,
        forall|i: int| 0 <= i < ls.len() ==> no_newline(#[trigger] ls[i]),
    ensures
        split_lines(join(ls, "\n"@)) == (ls.drop_last(), ls.last()),
    decreases ls.len(),
{
    reveal_strlit("\n");
    if ls.len() == 1 {
        assert(no_newline(ls[0]));
        lemma_split_append(Seq::empty(), ls[0]);
        assert(Seq::<char>::empty() + ls[0] =~= ls[0]);
        assert(ls.drop_last() =~= Seq::<Seq<char>>::empty());
    } else {
        let rest = ls.drop_last();
        assert forall|i: int| 0 <= i < rest.len() implies no_newline(#[trigger] rest[i]) by {
            assert(rest[i] == ls[i]);
        }
        lemma_split_join(rest);
        let j = join(rest, "\n"@);
        assert(join(ls, "\n"@) == j + "\n"@ + ls.last());
        assert(j + "\n"@ =~= j.push('\n'));
        assert(j.push('\n').drop_last() =~= j);
        assert(no_newline(ls[ls.len() - 1]));
        lemma_split_append(j.push('\n'), ls.last());
        assert(Seq::<char>::empty() + ls.last() =~= ls.last());
        assert(rest.drop_last().push(rest.last()) =~= rest);
    }
}

/// Normalizing twice gives what normalizing once gives. The normalized text
/// has no trailing newline, and its lines are the kept lines: none empty, none
/// with white space at either end.
pub proof fn lemma_normalized_idempotent(s: Seq<char>)
    ensures
        normalized(normalized(s)) == normalized(s),
        forall|i: int| 0 <= i < kept(pieces(s)).len() ==> clean_line(#[trigger] kept(pieces(s))[i]),
        normalized(s).len() == 0 || normalized(s).last() != '\n',
        normalized(s).len() > 0 ==> pieces(normalized(s)) == kept(pieces(s)),
        normalized(s).len() > 0 ==> forall|i: int|
            0 <= i < pieces(normalized(s)).len() ==> clean_line(#[trigger] pieces(normalized(s))[i]),
{
    lemma_split_no_newline(s);
    let ps = pieces(s);
    assert forall|i: int| 0 <= i < ps.len() implies no_newline(#[trigger] ps[i]) by {
        if i < split_lines(s).0.len() {
            assert(ps[i] == split_lines(s).0[i]);
        }
    }
    lemma_kept_clean(ps);
    let k = kept(ps);
    let r = normalized(s);
    if k.len() == 0 {
        assert(r == Seq::<char>::empty());
        assert(split_lines(Seq::<char>::empty()) == (Seq::<Seq<char>>::empty(), Seq::<char>::empty()));
        let e = Seq::<char>::empty();
        assert(pieces(r) =~= seq![e]);
        assert(seq![e].drop_last() =~= Seq::<Seq<char>>::empty());
        assert(seq![e].last() == e);
        assert(trim_start(e) == e);
        assert(trim_end(e) == e);
        assert(trimmed(e) == e);
        assert(kept(Seq::<Seq<char>>::empty()) == Seq::<Seq<char>>::empty());
        assert(kept(seq![e]) == Seq::<Seq<char>>::empty());
        assert(kept(pieces(r)) =~= Seq::<Seq<char>>::empty());
    } else {
        assert forall|i: int| 0 <= i < k.len() implies no_newline(#[trigger] k[i]) by {
            assert(clean_line(k[i]));
        }
        lemma_split_join(k);
        assert(pieces(r) =~= k);
        lemma_kept_of_clean(k);
        assert(clean_line(k[k.len() - 1]));
        lemma_join_last(k);
    }
}

/// Lines joined by newlines end with the last line.
proof fn lemma_join_last(ls: Seq<Seq<char>>)
    requires
        ls.len() > 0,
        ls.last().len() > 0,
    ensures
        join(ls, "\n"@).len() > 0,
        join(ls, "\n"@).last() == ls.last().last(),
{
    if ls.len() > 1 {
        let j = join(ls.drop_last(), "\n"@);
        assert(join(ls, "\n"@) == j + "\n"@ + ls.last());
        let t = j + "\n"@ + ls.last();
        assert(t[t.len() - 1] == ls.last()[ls.last().len() - 1]);
    }
}

/// A byte as two upper-case hex digits.
pub open spec fn byte_hex(b: u8) -> Seq<char> {
    zero_pad(hex_text(b as nat), 2)
}

/// Bytes as upper-case hex pairs separated by single spaces.
pub open spec fn hex_dump_text(bytes: Seq<u8>) -> Seq<char> {
    join(Seq::new(bytes.len(), |i: int| byte_hex(bytes[i])), " "@)
}

/// Bytes as upper-case hex pairs separated by single spaces.
pub fn hex_dump(bytes: &[u8]) -> (r: String)
    ensures
        r@ == hex_dump_text(bytes@),
{
    let mut out = String::new();
    let ghost parts = Seq::new(bytes@.len(), |i: int| byte_hex(bytes@[i]));
    let mut i: usize = 0;
    assert(parts.subrange(0, 0) =~= Seq::<Seq<char>>::empty());
    while i < bytes.len()
        invariant
            i <= bytes@.len(),
            parts == Seq::new(bytes@.len(), |k: int| byte_hex(bytes@[k])),
            out@ == join(parts.subrange(0, i as int), " "@),
        decreases bytes@.len() - i,
    {
        let ghost before = out@;
        if i > 0 {
            push_str(&mut out, " ");
        }
        let b = bytes[i];
        if b < 16 {
            push_zeros(&mut out, 1);
        }
        push_hex(&mut out, b as u64);
        proof {
            assert(hex_text(b as nat).len() == if b < 16 { 1nat } else { 2nat }) by {
                if b >= 16 {
                    assert(hex_text((b / 16) as nat) == seq![crate::text::digit_char((b / 16) as nat)]);
                }
            }
            lemma_join_push(parts.subrange(0, i as int), parts[i as int], " "@);
            assert(parts.subrange(0, i as int).push(parts[i as int]) =~= parts.subrange(0, i + 1));
            assert(out@ =~= join(parts.subrange(0, i + 1), " "@));
        }
        i = i + 1;
    }
    assert(parts.subrange(0, i as int) =~= parts);
    out
}

/// The value a string stands for in a stream of expected values: its first
/// byte, or 0 if it is empty.
pub open spec fn first_byte_value(s: Seq<char>) -> i32 {
    if encode_utf8(s).len() > 0 {
        encode_utf8(s)[0] as i32
    } else {
        0
    }
}

/// The value a string stands for in a stream of expected values: its first
/// byte, or 0 if it is empty.
pub fn text_value(s: &str) -> (v: i32)
    ensures
        v == first_byte_value(s@),
{
    let b = s.as_bytes();
    if b.len() > 0 {
        b[0] as i32
    } else {
        0
    }
}

} // verus!
