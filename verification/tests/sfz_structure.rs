use maolan_plugins::sampler::dsp::sfz::{sfz_structure, strip_comments, tokenize};
use maolan_plugins::sampler::dsp::sfz_preprocess::{split_lines, split_words, Preprocessor};

fn preprocess_text(text: &str) -> Result<String, String> {
    let stripped = strip_comments(text);
    let chars: Vec<char> = stripped.chars().collect();
    let lines = split_lines(&chars);
    let mut pp = Preprocessor::new();
    if let Some((_, p)) = pp.run_from(&lines, 0).map_err(|e| e.message)? {
        return Err(format!("include {p}"));
    }
    pp.finish(lines.len()).map_err(|e| e.message)
}

#[test]
fn regions_inherit_group_global_and_master_opcodes() {
    let text = "<global> volume=-1 pan=5\n<master> tune=3\n<group> volume=-2\n<region> sample=a.wav key=60\n<region> sample=b.wav key=62 tune=12\n";
    let tokens = tokenize(text);
    let groups = sfz_structure(&tokens);
    assert_eq!(groups.len(), 1);
    let header = groups[0].header.as_ref().unwrap();
    assert_eq!(header.get("volume"), Some("-2"));
    assert_eq!(header.get("pan"), Some("5"));
    assert_eq!(header.get("tune"), Some("3"));
    assert_eq!(groups[0].regions.len(), 2);
    assert_eq!(groups[0].regions[0].get("key"), Some("60"));
    assert_eq!(groups[0].regions[0].get("volume"), Some("-2"));
    assert_eq!(groups[0].regions[1].get("tune"), Some("12"));
}

#[test]
fn groups_close_in_order_and_global_closes_the_open_one() {
    let text = "<group> sw_last=24\n<region> key=60\n<group> sw_down=25\n<region> key=62\n";
    let groups = sfz_structure(&tokenize(text));
    assert_eq!(groups.len(), 2);
    assert_eq!(groups[0].header.as_ref().unwrap().get("sw_last"), Some("24"));
    assert_eq!(groups[1].regions[0].get("key"), Some("62"));
    assert_eq!(groups[1].regions[0].get("sw_last"), None);

    let closed = "<group> a=1\n<region> key=1\n<global> b=2\n<region> key=2\n";
    let groups = sfz_structure(&tokenize(closed));
    assert_eq!(groups.len(), 2);
    assert_eq!(groups[0].header.as_ref().unwrap().get("a"), Some("1"));
    assert_eq!(groups[0].regions.len(), 1);
    assert_eq!(groups[0].regions[0].get("key"), Some("1"));
    assert_eq!(groups[0].regions[0].get("b"), None);
    assert!(groups[1].header.is_none());
    assert_eq!(groups[1].regions.len(), 1);
    assert_eq!(groups[1].regions[0].get("b"), Some("2"));
    assert_eq!(groups[1].regions[0].get("a"), None);
}

#[test]
fn global_opcodes_reach_regions_without_a_group() {
    let groups = sfz_structure(&tokenize("<global> volume=-6
<region> sample=a.wav key=60
"));
    assert_eq!(groups.len(), 1);
    assert!(groups[0].header.is_none());
    assert_eq!(groups[0].regions[0].get("volume"), Some("-6"));
    let layered = "<control> default_path=s/
<global> pan=5 volume=-6
<master> volume=-3 tune=4
<group> tune=2
<region> key=60 pan=9
";
    let groups = sfz_structure(&tokenize(layered));
    let r = &groups[0].regions[0];
    assert_eq!(r.get("default_path"), Some("s/"));
    assert_eq!(r.get("volume"), Some("-3"));
    assert_eq!(r.get("tune"), Some("2"));
    assert_eq!(r.get("pan"), Some("9"));
}

#[test]
fn dollar_macros_are_substituted() {
    let result = preprocess_text("#define $ROOT 60\n<region> sample=a.wav key=$ROOT\n").unwrap();
    assert!(result.contains("key=60"));
}

#[test]
fn regions_without_group_fall_into_default_group() {
    let groups = sfz_structure(&tokenize("<region> sample=a.wav key=c4\n<control> default_path=x/\n"));
    assert_eq!(groups.len(), 1);
    assert!(groups[0].header.is_none());
    assert_eq!(groups[0].regions[0].get("key"), Some("c4"));
    assert!(sfz_structure(&tokenize("volume=3 <curve> v=1")).is_empty());
}

#[test]
fn test_preprocess_define() {
    let text = "\n#define ROOT 60\n<region> sample=silent.wav key=ROOT\n";
    let result = preprocess_text(text).unwrap();
    assert!(result.contains("key=60"));
}

#[test]
fn test_preprocess_if_else() {
    let text = "\n#define USE_IT\n#if USE_IT\n<region> sample=a.wav key=60\n#else\n<region> sample=b.wav key=62\n#end\n";
    let result = preprocess_text(text).unwrap();
    assert!(result.contains("sample=a.wav"));
    assert!(!result.contains("sample=b.wav"));
    let negated = preprocess_text("#if !USE_IT\nx\n#else\ny\n#end").unwrap();
    assert_eq!(negated, "x\n");
}

#[test]
fn preprocessor_reports_unbalanced_directives() {
    assert_eq!(preprocess_text("#else"), Err("#else without #if".to_string()));
    assert_eq!(preprocess_text("#end"), Err("#end without #if".to_string()));
    assert_eq!(preprocess_text("#if X\nline"), Err("Unclosed #if block".to_string()));
    assert_eq!(preprocess_text("#define"), Err("#define missing name".to_string()));
    assert_eq!(preprocess_text("#include"), Err("#include missing path".to_string()));
    assert_eq!(preprocess_text("#include \"a b.sfz\""), Err("include \"a".to_string()));
}

#[test]
fn define_values_join_words_with_single_spaces() {
    let out = preprocess_text("#define V  a   b\nx=V").unwrap();
    assert_eq!(out, "x=a b\n");
}

#[test]
fn lines_and_words_split_like_std() {
    let text: Vec<char> = "a\r\nb\n\nc\r".chars().collect();
    let lines: Vec<String> = split_lines(&text).iter().map(|l| l.iter().collect()).collect();
    assert_eq!(lines, vec!["a", "b", "", "c\r"]);
    let end: Vec<char> = "x\n".chars().collect();
    assert_eq!(split_lines(&end).len(), 1);
    let w: Vec<char> = "  one\ttwo \u{3000}three ".chars().collect();
    let words: Vec<String> = split_words(&w).iter().map(|x| x.iter().collect()).collect();
    assert_eq!(words, vec!["one", "two", "three"]);
}

fn preprocess_error(text: &str) -> Option<(String, usize)> {
    let chars: Vec<char> = strip_comments(text).chars().collect();
    let lines = split_lines(&chars);
    let mut pp = Preprocessor::new();
    match pp.run_from(&lines, 0) {
        Err(e) => Some((e.message, e.line)),
        Ok(Some(_)) => panic!("no include expected"),
        Ok(None) => pp.finish(lines.len()).err().map(|e| (e.message, e.line)),
    }
}

#[test]
fn unbalanced_directives_name_their_line() {
    assert_eq!(preprocess_error("a\n#if X\nb\n#end\n#end\nc\n"), Some(("#end without #if".to_string(), 5)));
    assert_eq!(preprocess_error("#if X\n#else\n#end\n#else\n"), Some(("#else without #if".to_string(), 4)));
    assert_eq!(preprocess_error("#if X\n#if Y\n#end\nz\n"), Some(("Unclosed #if block".to_string(), 4)));
    assert_eq!(preprocess_error("#if X\n#if Y\n#end\n#end\n"), None);
}

#[test]
fn run_stops_at_an_include_and_goes_on_after_it() {
    let chars: Vec<char> = "a\n#include \"x.sfz\"\nb\n".chars().collect();
    let lines = split_lines(&chars);
    let mut pp = Preprocessor::new();
    let (line, path) = pp.run_from(&lines, 0).ok().unwrap().unwrap();
    assert_eq!(line, 1);
    assert_eq!(path, "\"x.sfz\"");
    pp.push_included("inc");
    assert!(matches!(pp.run_from(&lines, line + 1), Ok(None)));
    assert_eq!(pp.finish(lines.len()).ok().unwrap(), "a\ninc\nb\n");
}
