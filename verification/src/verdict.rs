//! Judging a test run: what a test expects of the compiler and the machine,
//! and which of those expectations a compiled program and its run meet.
use vstd::prelude::*;
use crate::CompileResult;
use crate::simulator::SimulationResult;
use crate::compare::{is_space, trim_start, trim_end, trimmed, split_lines, pieces, normalized, hex_dump_text,
    normalize_str, hex_dump, is_space_char, push_kept};

verus! {

/// What a test expects. A blank text, or an empty output, expects nothing.
pub struct TestExpectation {
    pub ast: String,
    pub assembly: String,
    pub binary_code: String,
    pub stream_out: Vec<i32>,
    pub trace: String,
    pub max_ticks: u32,
}

/// The outcome of each check, `None` where the test expects nothing of it:
/// syntax tree, assembly and binary as normalized text, the output, whether
/// the trace has at most `max_ticks` lines; the numbers (from 0) of the
/// expected trace lines that differ from the run's, trimmed; and whether every
/// check that was made passed.
pub struct TestVerdict {
    pub ast: Option<bool>,
    pub assembly: Option<bool>,
    pub binary: Option<bool>,
    pub output: Option<bool>,
    pub ticks: Option<bool>,
    pub trace_diffs: Vec<usize>,
    pub passed: bool,
}

/// A text with nothing but white space.
pub open spec fn blank(s: Seq<char>) -> bool {
    trimmed(s).len() == 0
}

/// The lines of a text as `str::lines` counts them: the pieces between
/// newlines, without an empty piece after the last newline. (A line keeps a
/// carriage return before its newline; lines are compared trimmed.)
pub open spec fn text_lines(s: Seq<char>) -> Seq<Seq<char>> {
    if split_lines(s).1.len() > 0 {
        pieces(s)
    } else {
        split_lines(s).0
    }
}

/// The numbers below `n` of the lines that differ, trimmed.
pub open spec fn differing_lines(actual: Seq<Seq<char>>, expected: Seq<Seq<char>>, n: nat) -> Seq<usize>
    decreases n,
{
    if n == 0 {
        Seq::empty()
    } else {
        let prev = differing_lines(actual, expected, (n - 1) as nat);
        if trimmed(actual[n - 1]) != trimmed(expected[n - 1]) {
            prev.push((n - 1) as usize)
        } else {
            prev
        }
    }
}

/// A check passed or was not made.
pub open spec fn not_failed(c: Option<bool>) -> bool {
    c != Some(false)
}

/// The text check: none for a blank expectation, else whether both normalize
/// alike.
pub open spec fn text_check(actual: Seq<char>, expected: Seq<char>) -> Option<bool> {
    if blank(expected) {
        None
    } else {
        Some(normalized(actual) == normalized(expected))
    }
}

proof fn lemma_trim_start_empty(s: Seq<char>)
    ensures
        (trim_start(s).len() == 0) == (forall|i: int| 0 <= i < s.len() ==> is_space(#[trigger] s[i])),
    decreases s.len(),
{
    if s.len() > 0 {
        if is_space(s[0]) {
            let d = s.drop_first();
            lemma_trim_start_empty(d);
            assert((forall|i: int| 0 <= i < s.len() ==> is_space(#[trigger] s[i]))
                == (forall|j: int| 0 <= j < d.len() ==> is_space(#[trigger] d[j]))) by {
                if forall|j: int| 0 <= j < d.len() ==> is_space(#[trigger] d[j]) {
                    assert forall|i: int| 0 <= i < s.len() implies is_space(#[trigger] s[i]) by {
                        if i > 0 {
                            assert(s[i] == d[i - 1]);
                        }
                    }
                }
                if forall|i: int| 0 <= i < s.len() ==> is_space(#[trigger] s[i]) {
                    assert forall|j: int| 0 <= j < d.len() implies is_space(#[trigger] d[j]) by {
                        assert(d[j] == s[j + 1]);
                    }
                }
            }
        } else {
            assert(!is_space(s[0]));
        }
    }
}

proof fn lemma_trim_end_keeps_first(t: Seq<char>)
    requires
        t.len() > 0,
        !is_space(t[0]),
    ensures
        trim_end(t).len() > 0,
    decreases t.len(),
{
    if is_space(t.last()) {
        if t.len() == 1 {
            assert(t.last() == t[0]);
        } else {
            assert(t.drop_last()[0] == t[0]);
            lemma_trim_end_keeps_first(t.drop_last());
        }
    }
}

/// A text is blank exactly when every character is white space.
proof fn lemma_blank_all_space(s: Seq<char>)
    ensures
        blank(s) == (forall|i: int| 0 <= i < s.len() ==> is_space(#[trigger] s[i])),
{
    lemma_trim_start_empty(s);
    let t = trim_start(s);
    if t.len() > 0 {
        crate::compare::lemma_trim_start_shape(s);
        lemma_trim_end_keeps_first(t);
    } else {
        assert(trim_end(t) == t);
    }
}

/// Whether a text is blank.
pub fn is_blank(s: &str) -> (b: bool)
    ensures
        b == blank(s@),
{
    proof {
        lemma_blank_all_space(s@);
    }
    let mut all = true;
    broadcast use vstd::string::axiom_spec_iter;
    for c in it: s.chars()
        invariant
            it.seq() == s@,
            all == (forall|i: int| 0 <= i < it.index() ==> is_space(#[trigger] s@[i])),
    {
        if !is_space_char(c) {
            all = false;
        }
        assert(s@[it.index() as int] == c);
    }
    all
}

/// The lines of a text (see `text_lines`).
pub fn split_text(s: &str) -> (ls: Vec<Vec<char>>)
    ensures
        ls@.len() == text_lines(s@).len(),
        forall|i: int| 0 <= i < ls@.len() ==> #[trigger] ls@[i]@ == text_lines(s@)[i],
{
    let mut ls: Vec<Vec<char>> = Vec::new();
    let mut line: Vec<char> = Vec::new();
    let ghost mut done: Seq<Seq<char>> = Seq::empty();
    let ghost mut seen: Seq<char> = Seq::empty();
    broadcast use vstd::string::axiom_spec_iter;
    for c in it: s.chars()
        invariant
            it.seq() == s@,
            seen == s@.subrange(0, it.index() as int),
            split_lines(seen) == (done, line@),
            ls@.len() == done.len(),
            forall|i: int| 0 <= i < ls@.len() ==> #[trigger] ls@[i]@ == done[i],
    {
        let ghost prev = seen;
        proof {
            seen = seen.push(c);
            assert(seen =~= s@.subrange(0, it.index() + 1));
            assert(seen.drop_last() =~= prev);
        }
        if c == '\n' {
            let finished = line;
            proof {
                done = done.push(finished@);
            }
            ls.push(finished);
            line = Vec::new();
            assert(line@ =~= Seq::<char>::empty());
        } else {
            line.push(c);
        }
    }
    assert(seen =~= s@);
    if line.len() > 0 {
        proof {
            done = done.push(line@);
        }
        ls.push(line);
    }
    ls
}

/// Whether two lines are alike once trimmed.
fn same_trimmed(a: &Vec<char>, b: &Vec<char>) -> (r: bool)
    ensures
        r == (trimmed(a@) == trimmed(b@)),
{
    let mut ta = String::new();
    push_kept(&mut ta, a, true);
    let mut tb = String::new();
    push_kept(&mut tb, b, true);
    assert(ta@ =~= trimmed(a@));
    assert(tb@ =~= trimmed(b@));
    ta.eq(&tb)
}

/// Whether two texts normalize alike.
fn same_normalized(a: &str, b: &str) -> (r: bool)
    ensures
        r == (normalized(a@) == normalized(b@)),
{
    let na = normalize_str(a);
    let nb = normalize_str(b);
    na.eq(&nb)
}

/// The text check of an actual text against an expected one.
fn check_text(actual: &str, expected: &str) -> (r: Option<bool>)
    ensures
        r == text_check(actual@, expected@),
{
    if is_blank(expected) {
        None
    } else {
        Some(same_normalized(actual, expected))
    }
}

/// Whether two runs of values are equal.
fn same_values(a: &Vec<i32>, b: &Vec<i32>) -> (r: bool)
    ensures
        r == (a@ == b@),
{
    if a.len() != b.len() {
        return false;
    }
    let mut i: usize = 0;
    while i < a.len()
        invariant
            a@.len() == b@.len(),
            i <= a@.len(),
            forall|k: int| 0 <= k < i ==> a@[k] == b@[k],
        decreases a@.len() - i,
    {
        if a[i] != b[i] {
            return false;
        }
        i = i + 1;
    }
    assert(a@ =~= b@);
    true
}

/// The checks of a compiled program alone: syntax tree, assembly and binary
/// (as hex pairs), each `None` where the test expects nothing of it.
pub struct CompiledChecks {
    pub ast: Option<bool>,
    pub assembly: Option<bool>,
    pub binary: Option<bool>,
}

/// Judges a compiled program against the texts a test expects: each must
/// normalize as the expected text does, where that text is not blank.
pub fn check_compiled(expected: &TestExpectation, compiled: &CompileResult) -> (c: CompiledChecks)
    ensures
        c.ast == text_check(compiled.ast_debug@, expected.ast@),
        c.assembly == text_check(compiled.assembly@, expected.assembly@),
        c.binary == text_check(hex_dump_text(compiled.binary@), expected.binary_code@),
{
    let ast = check_text(compiled.ast_debug.as_str(), expected.ast.as_str());
    let assembly = check_text(compiled.assembly.as_str(), expected.assembly.as_str());
    let hex = hex_dump(compiled.binary.as_slice());
    let binary = check_text(hex.as_str(), expected.binary_code.as_str());
    CompiledChecks { ast, assembly, binary }
}

/// Judges a compiled program and its run against what a test expects: the
/// syntax tree, assembly and binary (as hex pairs) must normalize as the
/// expected texts do, the output must be the expected one, the trace may have
/// at most `max_ticks` lines, each check made only where the test expects
/// something of it; the test passes when every check made passes. The expected
/// trace may not have more lines than the run's.
pub fn check_test(expected: &TestExpectation, compiled: &CompileResult, sim: &SimulationResult) -> (v: TestVerdict)
    requires
        !blank(expected.trace@) ==> text_lines(expected.trace@).len() <= text_lines(sim.trace@).len(),
    ensures
        v.ast == text_check(compiled.ast_debug@, expected.ast@),
        v.assembly == text_check(compiled.assembly@, expected.assembly@),
        v.binary == text_check(hex_dump_text(compiled.binary@), expected.binary_code@),
        v.output == if expected.stream_out@.len() == 0 {
            None::<bool>
        } else {
            Some(sim.output@ == expected.stream_out@)
        },
        v.ticks == if blank(expected.trace@) {
            None::<bool>
        } else {
            Some(text_lines(sim.trace@).len() <= expected.max_ticks)
        },
        v.trace_diffs@ == if blank(expected.trace@) {
            Seq::<usize>::empty()
        } else {
            differing_lines(text_lines(sim.trace@), text_lines(expected.trace@), text_lines(expected.trace@).len())
        },
        v.passed == (not_failed(v.ast) && not_failed(v.assembly) && not_failed(v.binary) && not_failed(v.output)
            && not_failed(v.ticks)),
{
    let checks = check_compiled(expected, compiled);
    let ast = checks.ast;
    let assembly = checks.assembly;
    let binary = checks.binary;
    let output = if expected.stream_out.len() == 0 {
        None
    } else {
        Some(same_values(&sim.output, &expected.stream_out))
    };
    let mut trace_diffs: Vec<usize> = Vec::new();
    let ticks = if is_blank(expected.trace.as_str()) {
        None
    } else {
        let actual = split_text(sim.trace.as_str());
        let wanted = split_text(expected.trace.as_str());
        let ghost al = text_lines(sim.trace@);
        let ghost el = text_lines(expected.trace@);
        let mut i: usize = 0;
        while i < wanted.len()
            invariant
                i <= wanted@.len(),
                wanted@.len() == el.len(),
                actual@.len() == al.len(),
                el.len() <= al.len(),
                forall|k: int| 0 <= k < wanted@.len() ==> #[trigger] wanted@[k]@ == el[k],
                forall|k: int| 0 <= k < actual@.len() ==> #[trigger] actual@[k]@ == al[k],
                trace_diffs@ == differing_lines(al, el, i as nat),
            decreases wanted@.len() - i,
        {
            assert(actual@[i as int]@ == al[i as int]);
            assert(wanted@[i as int]@ == el[i as int]);
            if !same_trimmed(&actual[i], &wanted[i]) {
                trace_diffs.push(i);
            }
            i = i + 1;
        }
        Some(actual.len() <= expected.max_ticks as usize)
    };
    let passed = ast != Some(false) && assembly != Some(false) && binary != Some(false) && output != Some(false)
        && ticks != Some(false);
    TestVerdict { ast, assembly, binary, output, ticks, trace_diffs, passed }
}

} // verus!
