//! The shared `--scheme` / `--input` / `--output` / `--silent` options.

use vstd::prelude::*;
use crate::text::{
    from_chars, has_prefix, is_word, push_all, push_str, split_once, split_once_spec,
    starts_with, strings, to_chars,
};

verus! {

/// Where the schema, the data and the result are.
#[derive(Debug, Clone, PartialEq, Eq)]
pub struct IoArgs {
    pub scheme: String,
    pub input: String,
    /// Defaults to `input`.
    pub output: String,
    /// Hide the help header of the editor.
    pub silent: bool,
}

/// Options seen so far.
pub struct ArgState {
    pub scheme: Option<Seq<char>>,
    pub input: Option<Seq<char>>,
    pub output: Option<Seq<char>>,
    pub silent: bool,
}

pub open spec fn opt_v(o: &Option<Vec<char>>) -> Option<Seq<char>> {
    match o {
        Some(v) => Some(v@),
        None => None,
    }
}

/// Usage line of the options.
pub open spec fn usage_io_text() -> Seq<char> {
    "  es <cmd> --scheme <schema.yaml> --input <data.yaml> [--output <out.yaml>] [--silent]"@
}

/// One option and its value: `--flag=value`, or `--flag` and the next
/// argument; with what is left of the arguments.
pub open spec fn split_flag_spec(a: Seq<char>, rest: Seq<Seq<char>>) -> Result<
    (Seq<char>, Seq<char>, Seq<Seq<char>>),
    Seq<char>,
> {
    match split_once_spec(a, '=') {
        Some((f, v)) => if !has_prefix(f, "--"@) || v.len() == 0 {
            Err("некорректный аргумент: "@ + a)
        } else {
            Ok((f, v, rest))
        },
        None => if !has_prefix(a, "--"@) {
            Err(
                "неожиданный аргумент: "@ + a
                    + " (ожидались опции --scheme/--input/--output/--silent)"@,
            )
        } else if rest.len() == 0 {
            Err("опция "@ + a + " требует значение"@)
        } else {
            Ok((a, rest[0], rest.drop_first()))
        },
    }
}

/// The options read from `args` on top of `st`.
pub open spec fn args_run(args: Seq<Seq<char>>, st: ArgState) -> Result<ArgState, Seq<char>>
    decreases args.len(),
{
    if args.len() == 0 {
        Ok(st)
    } else {
        let a = args[0];
        let rest = args.drop_first();
        if a == "--silent"@ {
            if st.silent {
                Err("повторный --silent"@)
            } else {
                args_run(rest, ArgState { silent: true, ..st })
            }
        } else {
            match split_flag_spec(a, rest) {
                Err(e) => Err(e),
                Ok((flag, value, rest2)) => if rest2.len() < args.len() {
                    if flag == "--scheme"@ {
                        if st.scheme is Some {
                            Err("повторный --scheme"@)
                        } else {
                            args_run(rest2, ArgState { scheme: Some(value), ..st })
                        }
                    } else if flag == "--input"@ {
                        if st.input is Some {
                            Err("повторный --input"@)
                        } else {
                            args_run(rest2, ArgState { input: Some(value), ..st })
                        }
                    } else if flag == "--output"@ {
                        if st.output is Some {
                            Err("повторный --output"@)
                        } else {
                            args_run(rest2, ArgState { output: Some(value), ..st })
                        }
                    } else {
                        Err("неизвестная опция: "@ + flag)
                    }
                } else {
                    Err(Seq::empty())
                },
            }
        }
    }
}

/// No option seen yet.
pub open spec fn no_args() -> ArgState {
    ArgState { scheme: None, input: None, output: None, silent: false }
}

/// What [`parse_args`] gives for `args`: the scheme and input are
/// required, the output defaults to the input.
pub open spec fn io_args_spec(args: Seq<Seq<char>>) -> Result<(Seq<char>, Seq<char>, Seq<char>, bool), Seq<char>> {
    match args_run(args, no_args()) {
        Err(e) => Err(e),
        Ok(st) => match st.scheme {
            None => Err("нужен --scheme <path>\n"@ + usage_io_text()),
            Some(s) => match st.input {
                None => Err("нужен --input <path>\n"@ + usage_io_text()),
                Some(i) => Ok(
                    (
                        s,
                        i,
                        match st.output {
                            Some(o) => o,
                            None => i,
                        },
                        st.silent,
                    ),
                ),
            },
        },
    }
}

/// The usage line of the options.
pub fn usage_io() -> (r: &'static str)
    ensures
        r@ == usage_io_text(),
{
    "  es <cmd> --scheme <schema.yaml> --input <data.yaml> [--output <out.yaml>] [--silent]"
}

fn prefixed(a: &str, x: &[char]) -> (m: String)
    ensures
        m@ == a@ + x@,
{
    let mut v = to_chars(a);
    push_all(&mut v, x);
    from_chars(v.as_slice())
}

fn text_of(a: &str, x: &[char], b: &str) -> (m: String)
    ensures
        m@ == a@ + x@ + b@,
{
    let mut v = to_chars(a);
    push_all(&mut v, x);
    push_str(&mut v, b);
    from_chars(v.as_slice())
}

/// Reads the option at `args[i]`: the flag, its value, and the index of
/// the next argument.
fn split_flag(args: &Vec<String>, i: usize) -> (r: Result<(Vec<char>, Vec<char>, usize), String>)
    requires
        i < args.len(),
    ensures
        match r {
            Ok((f, v, j)) => split_flag_spec(strings(args@)[i as int], strings(args@).skip(i + 1))
                == Ok::<_, Seq<char>>((f@, v@, strings(args@).skip(j as int))) && i < j <= args.len(),
            Err(e) => split_flag_spec(strings(args@)[i as int], strings(args@).skip(i + 1))
                == Err::<(Seq<char>, Seq<char>, Seq<Seq<char>>), _>(e@),
        },
{
    let a = to_chars(args[i].as_str());
    assert(a@ == strings(args@)[i as int]);
    match split_once(a.as_slice(), '=') {
        Some((f, v)) => {
            if !starts_with(f.as_slice(), to_chars("--").as_slice()) || v.len() == 0 {
                return Err(prefixed("некорректный аргумент: ", a.as_slice()));
            }
            Ok((f, v, i + 1))
        },
        None => {
            if !starts_with(a.as_slice(), to_chars("--").as_slice()) {
                return Err(
                    text_of(
                        "неожиданный аргумент: ",
                        a.as_slice(),
                        " (ожидались опции --scheme/--input/--output/--silent)",
                    ),
                );
            }
            if i + 1 >= args.len() {
                return Err(text_of("опция ", a.as_slice(), " требует значение"));
            }
            let v = to_chars(args[i + 1].as_str());
            assert(strings(args@).skip(i + 1)[0] == strings(args@)[i + 1]);
            assert(strings(args@).skip(i + 1).drop_first() =~= strings(args@).skip(i + 2));
            Ok((a, v, i + 2))
        },
    }
}

fn word(s: &str) -> (r: String)
    ensures
        r@ == s@,
{
    from_chars(to_chars(s).as_slice())
}

proof fn lemma_spec_err(sa: Seq<Seq<char>>, e: Seq<char>)
    requires
        args_run(sa, no_args()) == Err::<ArgState, Seq<char>>(e),
    ensures
        io_args_spec(sa) == Err::<(Seq<char>, Seq<char>, Seq<char>, bool), Seq<char>>(e),
{
}

/// Parses the options: `--scheme` and `--input` are required, `--output`
/// defaults to the input, `--silent` is optional; each may appear once.
pub fn parse_args(args: Vec<String>) -> (r: Result<IoArgs, String>)
    ensures
        match r {
            Ok(a) => io_args_spec(strings(args@)) == Ok::<_, Seq<char>>(
                (a.scheme@, a.input@, a.output@, a.silent),
            ),
            Err(e) => io_args_spec(strings(args@)) == Err::<(Seq<char>, Seq<char>, Seq<char>, bool), _>(e@),
        },
{
    let ghost sa = strings(args@);
    let ghost init = no_args();
    let mut scheme: Option<Vec<char>> = None;
    let mut input: Option<Vec<char>> = None;
    let mut output: Option<Vec<char>> = None;
    let mut silent = false;
    let mut i: usize = 0;
    assert(sa.skip(0) =~= sa);
    while i < args.len()
        invariant
            i <= args.len(),
            sa == strings(args@),
            init == no_args(),
            args_run(sa, init) == args_run(
                sa.skip(i as int),
                ArgState { scheme: opt_v(&scheme), input: opt_v(&input), output: opt_v(&output), silent },
            ),
        decreases args.len() - i,
    {
        let ghost rest = sa.skip(i as int);
        assert(rest[0] == sa[i as int]);
        assert(rest.drop_first() =~= sa.skip(i + 1));
        let a = to_chars(args[i].as_str());
        let ghost st = ArgState {
            scheme: opt_v(&scheme),
            input: opt_v(&input),
            output: opt_v(&output),
            silent,
        };
        assert(a@ == rest[0]);
        if is_word(a.as_slice(), "--silent") {
            if silent {
                let e = word("повторный --silent");
                assert(args_run(rest, st) == Err::<ArgState, _>(e@));
                proof {
                    lemma_spec_err(sa, e@);
                }
                return Err(e);
            }
            silent = true;
            i = i + 1;
        } else {
            let (flag, value, j) = match split_flag(&args, i) {
                Ok(x) => x,
                Err(e) => {
                    assert(args_run(rest, st) == Err::<ArgState, _>(e@));
                    proof {
                        lemma_spec_err(sa, e@);
                    }
                    return Err(e);
                },
            };
            assert(sa.skip(j as int).len() < rest.len());
            if is_word(flag.as_slice(), "--scheme") {
                if scheme.is_some() {
                    return Err(word("повторный --scheme"));
                }
                scheme = Some(value);
            } else if is_word(flag.as_slice(), "--input") {
                if input.is_some() {
                    return Err(word("повторный --input"));
                }
                input = Some(value);
            } else if is_word(flag.as_slice(), "--output") {
                if output.is_some() {
                    return Err(word("повторный --output"));
                }
                output = Some(value);
            } else {
                let e = prefixed("неизвестная опция: ", flag.as_slice());
                assert(args_run(rest, st) == Err::<ArgState, _>(e@));
                proof {
                    lemma_spec_err(sa, e@);
                }
                return Err(e);
            }
            i = j;
        }
    }
    assert(sa.skip(i as int).len() == 0);
    let scheme = match scheme {
        Some(s) => s,
        None => {
            let mut m = to_chars("нужен --scheme <path>\n");
            push_str(&mut m, usage_io());
            return Err(from_chars(m.as_slice()));
        },
    };
    let input = match input {
        Some(s) => s,
        None => {
            let mut m = to_chars("нужен --input <path>\n");
            push_str(&mut m, usage_io());
            return Err(from_chars(m.as_slice()));
        },
    };
    let output = match output {
        Some(o) => o,
        None => input.clone(),
    };
    Ok(
        IoArgs {
            scheme: from_chars(scheme.as_slice()),
            input: from_chars(input.as_slice()),
            output: from_chars(output.as_slice()),
            silent,
        },
    )
}

} // verus!
