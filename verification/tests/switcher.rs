use toolbelt::switcher::{run, set_font, set_ligatures, set_ligatures_with_optional_font, Step};

fn args(v: &[&str]) -> Vec<String> {
    v.iter().map(|s| s.to_string()).collect()
}

const LIG_ON: Step = Step::Copy { from: "ligature.enabled.lua", to: "ligature.lua" };
const LIG_OFF: Step = Step::Copy { from: "ligature.disabled.lua", to: "ligature.lua" };
const FONT_25: Step = Step::Copy { from: "font.25.lua", to: "font.lua" };
const FONT_16: Step = Step::Copy { from: "font.16.lua", to: "font.lua" };

#[test]
fn readme_usage_lines() {
    assert_eq!(run(&args(&["ly"])), vec![LIG_ON]);
    assert_eq!(run(&args(&["ln"])), vec![LIG_OFF]);
    assert_eq!(run(&args(&["ly", "25"])), vec![LIG_ON, FONT_25]);
    assert_eq!(run(&args(&["ln", "16"])), vec![LIG_OFF, FONT_16]);
    assert_eq!(run(&args(&["lig", "on"])), vec![LIG_ON]);
    assert_eq!(run(&args(&["lig", "off", "25"])), vec![LIG_OFF, FONT_25]);
    assert_eq!(run(&args(&["25"])), vec![FONT_25]);
    assert_eq!(run(&args(&["16"])), vec![FONT_16]);
    assert_eq!(run(&args(&[])), vec![LIG_OFF, FONT_16]);
}

#[test]
fn ligature_words_and_aliases() {
    assert_eq!(run(&args(&["lig", "yes"])), vec![LIG_ON]);
    assert_eq!(run(&args(&["lig", "no"])), vec![LIG_OFF]);
    assert_eq!(run(&args(&["ligature", "on", "big"])), vec![LIG_ON, FONT_25]);
    assert_eq!(run(&args(&["lig", "maybe"])), Vec::<Step>::new());
    assert_eq!(run(&args(&["lig"])), Vec::<Step>::new());
    assert_eq!(run(&args(&["lig", "maybe", "16"])), vec![FONT_16]);
}

#[test]
fn font_words_and_aliases() {
    assert_eq!(run(&args(&["f", "25"])), vec![FONT_25]);
    assert_eq!(run(&args(&["f", "large"])), vec![FONT_25]);
    assert_eq!(run(&args(&["font", "big"])), vec![FONT_25]);
    assert_eq!(run(&args(&["f", "16"])), vec![FONT_16]);
    assert_eq!(run(&args(&["font", "small"])), vec![FONT_16]);
    assert_eq!(run(&args(&["f", "huge"])), Vec::<Step>::new());
    assert_eq!(run(&args(&["f"])), Vec::<Step>::new());
}

#[test]
fn help_and_unknown_commands() {
    assert_eq!(run(&args(&["h"])), vec![Step::Usage]);
    assert_eq!(run(&args(&["--help"])), vec![Step::Usage]);
    assert_eq!(run(&args(&["zzz"])), vec![LIG_OFF, FONT_16]);
}

#[test]
fn step_builders() {
    assert_eq!(set_font("big"), vec![FONT_25]);
    assert_eq!(set_font("small"), vec![FONT_16]);
    assert_eq!(set_font(""), Vec::<Step>::new());
    assert_eq!(set_ligatures(&args(&["on", ""])), vec![LIG_ON]);
    assert_eq!(set_ligatures(&args(&["off", "25"])), vec![LIG_OFF, FONT_25]);
    let size = "16".to_string();
    assert_eq!(set_ligatures_with_optional_font("yes", Some(&size)), vec![LIG_ON, FONT_16]);
    assert_eq!(set_ligatures_with_optional_font("no", None), vec![LIG_OFF]);
}
