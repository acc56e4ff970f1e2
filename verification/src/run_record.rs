//! One finished run of a menu command, and what the history panel shows
//! of it.

use std::time::{Duration, SystemTime};
use vstd::prelude::*;
use crate::text::{dec_int, fmt_i64, join, lemma_join_lines, lines, lines_of, push_str, strings, to_chars, to_strings, views};

verus! {

#[verifier::external_type_specification]
#[verifier::external_body]
pub struct ExSystemTime(SystemTime);

/// `Clone` for `SystemTime`, a `Copy` type: the clone is the same instant.
pub assume_specification[ <SystemTime as Clone>::clone ](t: &SystemTime) -> (r: SystemTime)
    ensures
        r == *t,
;

/// `Clone` for `Duration`, a `Copy` type: the clone is the same length of time.
pub assume_specification[ <Duration as Clone>::clone ](d: &Duration) -> (r: Duration)
    ensures
        r == *d,
;

/// One run of a command.
#[derive(Debug, Clone)]
pub struct RunRecord {
    /// Index of the menu entry the run belongs to.
    pub entry_idx: usize,
    /// When it started.
    pub started_at: SystemTime,
    /// When the process ended.
    pub finished_at: SystemTime,
    /// How long it ran.
    pub duration: Duration,
    /// Exit code, when the process exited normally (not by a signal).
    pub exit_code: Option<i32>,
    /// Signal number, when the process was killed by a signal.
    pub signal: Option<i32>,
    /// Success: the exit code is `Some(0)`.
    pub ok: bool,
    /// Collected standard output.
    pub stdout: String,
    /// Collected standard error.
    pub stderr: String,
}

/// How an exit code reads in the body of a failed run.
pub open spec fn code_text(code: Option<i32>) -> Seq<char> {
    match code {
        Some(c) => dec_int(c as int),
        None => seq!['?'],
    }
}

/// The body lines of a run: on success its standard output; on failure its
/// standard error (or `exit code: N` when that is empty), then, if there
/// was standard output, a blank line and the standard output.
pub open spec fn body_lines_of(ok: bool, code: Option<i32>, stdout: Seq<char>, stderr: Seq<char>) -> Seq<Seq<char>> {
    if ok {
        lines_of(stdout)
    } else {
        let head = if stderr.len() == 0 {
            seq!["exit code: "@ + code_text(code)]
        } else {
            lines_of(stderr)
        };
        if stdout.len() > 0 {
            head.push(Seq::empty()) + lines_of(stdout)
        } else {
            head
        }
    }
}

impl RunRecord {
    /// Lines of the body shown in the history panel.
    pub fn body_lines(&self) -> (r: Vec<String>)
        ensures
            strings(r@) == body_lines_of(self.ok, self.exit_code, self.stdout@, self.stderr@),
    {
        let out = to_chars(self.stdout.as_str());
        if self.ok {
            let l = lines(out.as_slice());
            return to_strings(&l);
        }
        let err = to_chars(self.stderr.as_str());
        let mut acc: Vec<Vec<char>> = Vec::new();
        if err.len() == 0 {
            let mut head = Vec::new();
            push_str(&mut head, "exit code: ");
            match self.exit_code {
                Some(c) => {
                    let d = fmt_i64(c as i64);
                    let mut j: usize = 0;
                    let ghost h0 = head@;
                    while j < d.len()
                        invariant
                            j <= d.len(),
                            head@ =~= h0 + d@.take(j as int),
                        decreases d.len() - j,
                    {
                        head.push(d[j]);
                        j = j + 1;
                    }
                    assert(d@.take(d.len() as int) =~= d@);
                },
                None => {
                    head.push('?');
                },
            }
            assert(head@ =~= "exit code: "@ + code_text(self.exit_code));
            let ghost hv = head@;
            acc.push(head);
            assert(views(acc@) =~= seq![hv]);
        } else {
            acc = lines(err.as_slice());
        }
        let ghost h = views(acc@);
        if out.len() > 0 {
            acc.push(Vec::new());
            assert(views(acc@) =~= h.push(Seq::empty()));
            let ls = lines(out.as_slice());
            let ghost h2 = views(acc@);
            let mut i: usize = 0;
            while i < ls.len()
                invariant
                    i <= ls.len(),
                    views(acc@) =~= h2 + views(ls@).take(i as int),
                decreases ls.len() - i,
            {
                let ghost before = views(acc@);
                acc.push(ls[i].clone());
                assert(views(acc@) =~= before.push(ls@[i as int]@));
                assert(views(ls@).take(i + 1) =~= views(ls@).take(i as int).push(ls@[i as int]@));
                i = i + 1;
            }
            assert(views(ls@).take(ls.len() as int) =~= views(ls@));
            assert(views(acc@) =~= h.push(Seq::empty()) + lines_of(self.stdout@));
        }
        to_strings(&acc)
    }
}

/// The body of a failed run never loses its standard output: when there is
/// some, the body ends with all of its lines, after a blank line, whatever
/// the standard error holds; before that come the standard error's lines,
/// or the exit code when there is no standard error.
pub proof fn law_failed_body_keeps_stdout(code: Option<i32>, stdout: Seq<char>, stderr: Seq<char>)
    requires
        stdout.len() > 0,
    ensures
        ({
            let b = body_lines_of(false, code, stdout, stderr);
            let o = lines_of(stdout);
            let k = b.len() - o.len();
            &&& k >= 1
            &&& b.skip(k) == o
            &&& b[k - 1] == Seq::<char>::empty()
            &&& stderr.len() > 0 ==> b.take(k - 1) == lines_of(stderr)
            &&& stderr.len() == 0 ==> b.take(k - 1) == seq!["exit code: "@ + code_text(code)]
        }),
{
    let b = body_lines_of(false, code, stdout, stderr);
    let o = lines_of(stdout);
    let head = if stderr.len() == 0 {
        seq!["exit code: "@ + code_text(code)]
    } else {
        lines_of(stderr)
    };
    assert(b == head.push(Seq::empty()) + o);
    let k = b.len() - o.len();
    assert(k == head.len() + 1);
    assert(b.skip(k) =~= o);
    assert(b.take(k - 1) =~= head);
    assert(b[k - 1] == head.push(Seq::empty())[k - 1]);
}

/// A successful run's body is its standard output and nothing else: it
/// does not depend on the exit code or the standard error, and an output
/// without carriage returns or a final newline is its lines joined back.
pub proof fn law_ok_body_is_stdout(
    code: Option<i32>,
    code2: Option<i32>,
    stdout: Seq<char>,
    stderr: Seq<char>,
    stderr2: Seq<char>,
)
    ensures
        body_lines_of(true, code, stdout, stderr) == body_lines_of(true, code2, stdout, stderr2),
        stdout.len() > 0 && !stdout.contains('\r') && stdout.last() != '\n' ==> join(
            body_lines_of(true, code, stdout, stderr),
            seq!['\n'],
        ) == stdout,
{
    if stdout.len() > 0 && !stdout.contains('\r') && stdout.last() != '\n' {
        lemma_join_lines(stdout);
    }
}

/// A failed run with no standard output shows its standard error, whose
/// lines (without carriage returns or a final newline) join back to it, or
/// else one line with the exit code.
pub proof fn law_failed_body_shows_error(code: Option<i32>, stderr: Seq<char>)
    ensures
        stderr.len() == 0 ==> body_lines_of(false, code, Seq::empty(), stderr) == seq!["exit code: "@ + code_text(code)],
        stderr.len() > 0 && !stderr.contains('\r') && stderr.last() != '\n' ==> join(
            body_lines_of(false, code, Seq::empty(), stderr),
            seq!['\n'],
        ) == stderr,
{
    if stderr.len() > 0 && !stderr.contains('\r') && stderr.last() != '\n' {
        lemma_join_lines(stderr);
    }
}

} // verus!
