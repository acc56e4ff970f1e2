//! The terminal font switcher: which preset fragments a command line
//! copies over the live ones (`ligature.lua`, `font.lua`), in order.

use vstd::prelude::*;
use crate::text::{is_word, to_chars};

verus! {

/// One thing to do: copy a preset over a live fragment, or print the
/// usage.
#[derive(Debug, Clone, Copy, PartialEq, Eq)]
pub enum Step {
    Copy { from: &'static str, to: &'static str },
    Usage,
}

pub enum StepV {
    Copy(Seq<char>, Seq<char>),
    Usage,
}

pub open spec fn step_view(s: Step) -> StepV {
    match s {
        Step::Copy { from, to } => StepV::Copy(from@, to@),
        Step::Usage => StepV::Usage,
    }
}

pub open spec fn steps_view(v: Seq<Step>) -> Seq<StepV> {
    v.map_values(|s: Step| step_view(s))
}

pub open spec fn font_large() -> StepV {
    StepV::Copy("font.25.lua"@, "font.lua"@)
}

pub open spec fn font_small() -> StepV {
    StepV::Copy("font.16.lua"@, "font.lua"@)
}

pub open spec fn ligatures_on() -> StepV {
    StepV::Copy("ligature.enabled.lua"@, "ligature.lua"@)
}

pub open spec fn ligatures_off() -> StepV {
    StepV::Copy("ligature.disabled.lua"@, "ligature.lua"@)
}

/// Font size: `big`, `large` or `25` copy the large preset, `small` or
/// `16` the small one; anything else nothing.
pub open spec fn font_steps(size: Seq<char>) -> Seq<StepV> {
    if size == "big"@ || size == "large"@ || size == "25"@ {
        seq![font_large()]
    } else if size == "small"@ || size == "16"@ {
        seq![font_small()]
    } else {
        Seq::empty()
    }
}

/// Ligatures from the first argument (`yes`/`on`, `no`/`off`, else
/// nothing), then the font size from a non-empty second argument.
pub open spec fn ligature_steps(args: Seq<Seq<char>>) -> Seq<StepV> {
    let first = if args.len() > 0 { args[0] } else { Seq::empty() };
    let lig = if first == "yes"@ || first == "on"@ {
        seq![ligatures_on()]
    } else if first == "no"@ || first == "off"@ {
        seq![ligatures_off()]
    } else {
        Seq::empty()
    };
    if args.len() > 1 && args[1].len() > 0 {
        lig + font_steps(args[1])
    } else {
        lig
    }
}

/// What a command line does: `lig`/`ligature` with its arguments, `ly`
/// and `ln` with an optional size, `f`/`font` with a size, `25`, `16`,
/// `h`/`--help`; anything else (or nothing) turns ligatures off and sets
/// the small font.
pub open spec fn run_steps(args: Seq<Seq<char>>) -> Seq<StepV> {
    if args.len() == 0 {
        ligature_steps(seq!["no"@]) + font_steps("small"@)
    } else {
        let a = args[0];
        let second = if args.len() > 1 { seq![args[1]] } else { Seq::empty() };
        if a == "lig"@ || a == "ligature"@ {
            ligature_steps(args.skip(1))
        } else if a == "ly"@ {
            ligature_steps(seq!["yes"@] + second)
        } else if a == "ln"@ {
            ligature_steps(seq!["no"@] + second)
        } else if a == "f"@ || a == "font"@ {
            font_steps(if args.len() > 1 { args[1] } else { Seq::empty() })
        } else if a == "25"@ {
            font_steps("large"@)
        } else if a == "16"@ {
            font_steps("small"@)
        } else if a == "h"@ || a == "--help"@ {
            seq![StepV::Usage]
        } else {
            ligature_steps(seq!["no"@]) + font_steps("small"@)
        }
    }
}

/// The steps that set the font size.
pub fn set_font(size: &str) -> (r: Vec<Step>)
    ensures
        steps_view(r@) == font_steps(size@),
{
    let s = to_chars(size);
    let t = s.as_slice();
    let mut r: Vec<Step> = Vec::new();
    if is_word(t, "big") || is_word(t, "large") || is_word(t, "25") {
        r.push(Step::Copy { from: "font.25.lua", to: "font.lua" });
    } else if is_word(t, "small") || is_word(t, "16") {
        r.push(Step::Copy { from: "font.16.lua", to: "font.lua" });
    }
    assert(steps_view(r@) =~= font_steps(size@));
    r
}

pub open spec fn strs(v: Seq<String>) -> Seq<Seq<char>> {
    v.map_values(|s: String| s@)
}

/// The steps of the ligature command with arguments `args`.
pub fn set_ligatures(args: &Vec<String>) -> (r: Vec<Step>)
    ensures
        steps_view(r@) == ligature_steps(strs(args@)),
{
    let first = if args.len() > 0 { to_chars(args[0].as_str()) } else { Vec::new() };
    let t = first.as_slice();
    let mut r: Vec<Step> = Vec::new();
    if is_word(t, "yes") || is_word(t, "on") {
        r.push(Step::Copy { from: "ligature.enabled.lua", to: "ligature.lua" });
    } else if is_word(t, "no") || is_word(t, "off") {
        r.push(Step::Copy { from: "ligature.disabled.lua", to: "ligature.lua" });
    }
    let ghost lig = steps_view(r@);
    if args.len() > 1 && to_chars(args[1].as_str()).len() > 0 {
        let f = set_font(args[1].as_str());
        let mut i: usize = 0;
        while i < f.len()
            invariant
                i <= f@.len(),
                steps_view(r@) =~= lig + steps_view(f@).take(i as int),
            decreases f.len() - i,
        {
            let ghost o = steps_view(r@);
            r.push(f[i]);
            assert(steps_view(r@) =~= o.push(step_view(f@[i as int])));
            assert(steps_view(f@).take(i + 1) =~= steps_view(f@).take(i as int).push(step_view(f@[i as int])));
            i = i + 1;
        }
        assert(steps_view(f@).take(f@.len() as int) =~= steps_view(f@));
    }
    assert(steps_view(r@) =~= ligature_steps(strs(args@)));
    r
}

/// Ligatures, then the font size if one is given.
pub fn set_ligatures_with_optional_font(ligatures: &str, font: Option<&String>) -> (r: Vec<Step>)
    ensures
        steps_view(r@) == ligature_steps(
            seq![ligatures@] + match font {
                Some(f) => seq![f@],
                None => Seq::empty(),
            },
        ),
{
    let mut args: Vec<String> = Vec::new();
    args.push(ligatures.to_owned());
    match font {
        Some(f) => args.push(f.clone()),
        None => {},
    }
    assert(strs(args@) =~= seq![ligatures@] + match font {
        Some(f) => seq![f@],
        None => Seq::<Seq<char>>::empty(),
    });
    set_ligatures(&args)
}

fn append_steps(r: &mut Vec<Step>, more: Vec<Step>)
    ensures
        steps_view(final(r)@) == steps_view(old(r)@) + steps_view(more@),
{
    let ghost a = steps_view(r@);
    let mut i: usize = 0;
    while i < more.len()
        invariant
            i <= more@.len(),
            steps_view(r@) =~= a + steps_view(more@).take(i as int),
        decreases more.len() - i,
    {
        let ghost o = steps_view(r@);
        r.push(more[i]);
        assert(steps_view(r@) =~= o.push(step_view(more@[i as int])));
        assert(steps_view(more@).take(i + 1) =~= steps_view(more@).take(i as int).push(step_view(more@[i as int])));
        i = i + 1;
    }
    assert(steps_view(more@).take(more@.len() as int) =~= steps_view(more@));
}

/// The steps of a command line (without the program name).
pub fn run(args: &Vec<String>) -> (r: Vec<Step>)
    ensures
        steps_view(r@) == run_steps(strs(args@)),
{
    let ghost sa = strs(args@);
    if args.len() == 0 {
        let mut r = set_ligatures_with_optional_font("no", None);
        append_steps(&mut r, set_font("small"));
        assert(seq!["no"@] + Seq::<Seq<char>>::empty() =~= seq!["no"@]);
        return r;
    }
    let a = to_chars(args[0].as_str());
    let t = a.as_slice();
    let second: Option<&String> = if args.len() > 1 { Some(&args[1]) } else { None };
    assert((match second {
        Some(f) => seq![f@],
        None => Seq::<Seq<char>>::empty(),
    }) =~= (if sa.len() > 1 { seq![sa[1]] } else { Seq::<Seq<char>>::empty() }));
    if is_word(t, "lig") || is_word(t, "ligature") {
        let mut rest: Vec<String> = Vec::new();
        let mut i: usize = 1;
        while i < args.len()
            invariant
                1 <= i <= args@.len(),
                strs(rest@) =~= sa.subrange(1, i as int),
                sa == strs(args@),
            decreases args.len() - i,
        {
            let ghost o = strs(rest@);
            rest.push(args[i].clone());
            assert(strs(rest@) =~= o.push(sa[i as int]));
            i = i + 1;
        }
        assert(sa.subrange(1, args@.len() as int) =~= sa.skip(1));
        set_ligatures(&rest)
    } else if is_word(t, "ly") {
        set_ligatures_with_optional_font("yes", second)
    } else if is_word(t, "ln") {
        set_ligatures_with_optional_font("no", second)
    } else if is_word(t, "f") || is_word(t, "font") {
        match second {
            Some(s) => set_font(s.as_str()),
            None => {
                proof {
                    reveal_strlit("");
                    assert(""@ =~= Seq::<char>::empty());
                }
                set_font("")
            },
        }
    } else if is_word(t, "25") {
        set_font("large")
    } else if is_word(t, "16") {
        set_font("small")
    } else if is_word(t, "h") || is_word(t, "--help") {
        let mut r: Vec<Step> = Vec::new();
        r.push(Step::Usage);
        assert(steps_view(r@) =~= seq![StepV::Usage]);
        r
    } else {
        let mut r = set_ligatures_with_optional_font("no", None);
        append_steps(&mut r, set_font("small"));
        assert(seq!["no"@] + Seq::<Seq<char>>::empty() =~= seq!["no"@]);
        r
    }
}

} // verus!
