use maolan_plugins::common::filter::FilterType;
use maolan_plugins::sampler::dsp::sfz::{
    classify_opcode_value, OpcodeClass, collect_opcodes_until_header, combine_maps, evaluate_if_condition, get_bool, include_path_text,
    is_active, parse_curve_type, parse_filter_type, parse_loop_direction, parse_loop_mode, parse_note_name,
    parse_trigger_mode, sanitize_export_name, tokenize, trigger_mode_from_lower, DefineTable, IfState,
    OpcodeMap, SfzError,
};
use maolan_plugins::sampler::dsp::zone::{CurveType, LoopDirection, LoopMode, SamplePlayMode};

#[test]
fn opcodes_are_collected_up_to_the_next_header() {
    let tokens = tokenize("<region> key=60 lokey=58 key=61 <group> volume=-6");
    let (map, next) = collect_opcodes_until_header(&tokens, 1, 1);
    assert_eq!(next, 4);
    assert_eq!(map.get("key"), Some("61"));
    assert_eq!(map.get("lokey"), Some("58"));
    assert_eq!(map.get("volume"), None);
    let (tail, end) = collect_opcodes_until_header(&tokens, 5, 1);
    assert_eq!(end, tokens.len());
    assert_eq!(tail.get("volume"), Some("-6"));
    let (none, at) = collect_opcodes_until_header(&tokens, 0, 1);
    assert_eq!(at, 0);
    assert_eq!(none.get("key"), None);
}

#[test]
fn later_opcode_maps_override_earlier_ones() {
    let mut a = OpcodeMap::new();
    a.insert("volume".to_string(), "0".to_string());
    a.insert("pan".to_string(), "10".to_string());
    let mut b = OpcodeMap::new();
    b.insert("volume".to_string(), "-6".to_string());
    let c = combine_maps(&a, &b);
    assert_eq!(c.get("volume"), Some("-6"));
    assert_eq!(c.get("pan"), Some("10"));
    a.extend(&b);
    assert_eq!(a.get("volume"), Some("-6"));
}

#[test]
fn booleans_read_from_words_notes_and_numbers() {
    let mut m = OpcodeMap::new();
    for (k, v) in [("a", " On "), ("b", "no"), ("c", "0"), ("d", "5"), ("e", "-3"), ("f", "c4"), ("g", "maybe"), ("h", "1.5"), ("i", "")] {
        m.insert(k.to_string(), v.to_string());
    }
    assert_eq!(get_bool(&m, "a"), Some(true));
    assert_eq!(get_bool(&m, "b"), Some(false));
    assert_eq!(get_bool(&m, "c"), Some(false));
    assert_eq!(get_bool(&m, "d"), Some(true));
    assert_eq!(get_bool(&m, "e"), None);
    assert_eq!(get_bool(&m, "f"), Some(true));
    assert_eq!(get_bool(&m, "g"), None);
    assert_eq!(get_bool(&m, "h"), None);
    assert_eq!(get_bool(&m, "i"), None);
    assert_eq!(get_bool(&m, "missing"), None);
}

#[test]
fn named_choices_ignore_case() {
    assert_eq!(parse_curve_type("Exponential"), CurveType::Exponential);
    assert_eq!(parse_curve_type("LOG"), CurveType::Logarithmic);
    assert_eq!(parse_curve_type("s-curve"), CurveType::SCurve);
    assert_eq!(parse_curve_type("other"), CurveType::Linear);
    assert_eq!(parse_trigger_mode("Release_Key"), SamplePlayMode::OnRelease);
    assert_eq!(parse_trigger_mode("legato"), SamplePlayMode::Normal);
    assert_eq!(trigger_mode_from_lower("RELEASE"), SamplePlayMode::Normal);
    assert_eq!(parse_loop_mode("LOOP_CONTINUOUS"), LoopMode::DuringVoice);
    assert_eq!(parse_loop_mode("loop_sustain"), LoopMode::WhileGated);
    assert_eq!(parse_loop_mode("one_shot"), LoopMode::Off);
    assert_eq!(parse_loop_direction("Alternate"), LoopDirection::Alternate);
    assert_eq!(parse_loop_direction("forward"), LoopDirection::Forward);
    assert_eq!(parse_filter_type("HPF_2P"), FilterType::Highpass);
    assert_eq!(parse_filter_type("bpk_2p"), FilterType::Bell);
    assert_eq!(parse_filter_type("apf_1p"), FilterType::Allpass);
    assert_eq!(parse_filter_type("lsh"), FilterType::LowShelf);
    assert_eq!(parse_filter_type("weird"), FilterType::Lowpass);
}

#[test]
fn export_names_are_file_safe() {
    assert_eq!(sanitize_export_name("Kick Drum #1"), "Kick_Drum_1");
    assert_eq!(sanitize_export_name("__a--b__"), "a--b");
    assert_eq!(sanitize_export_name("***"), "sample");
    assert_eq!(sanitize_export_name(""), "sample");
    assert_eq!(sanitize_export_name("a  b"), "a_b");
}

#[test]
fn include_arguments_lose_quotes_or_brackets() {
    assert_eq!(include_path_text("  \"sub/file.sfz\" "), "sub/file.sfz");
    assert_eq!(include_path_text("<lib.sfz>"), "lib.sfz");
    assert_eq!(include_path_text("\"half"), "\"half");
    assert_eq!(include_path_text("plain.sfz"), "plain.sfz");
}

#[test]
fn note_names_to_midi() {
    assert_eq!(parse_note_name("c4"), Some(60));
    assert_eq!(parse_note_name("Db5"), Some(73));
    assert_eq!(parse_note_name("F#3"), Some(54));
    assert_eq!(parse_note_name("g-1"), Some(7));
    assert_eq!(parse_note_name("b4"), Some(71));
    assert_eq!(parse_note_name("g9"), Some(127));
    assert_eq!(parse_note_name("a9"), None);
    assert_eq!(parse_note_name("h4"), None);
    assert_eq!(parse_note_name(""), None);
}

#[test]
fn preprocessor_conditions_and_defines() {
    let mut defs = DefineTable::new();
    defs.define("$VEL".to_string(), "100".to_string());
    assert!(evaluate_if_condition(" $VEL ", &defs));
    assert!(!evaluate_if_condition("!$VEL", &defs));
    assert!(evaluate_if_condition("! $OTHER", &defs));
    assert!(is_active(&[IfState::Taking, IfState::Taking]));
    assert!(!is_active(&[IfState::Taking, IfState::Skipping]));
    assert!(is_active(&[]));
}

#[test]
fn sfz_error_keeps_its_position() {
    let e = SfzError::new("#else without #if".to_string(), 3, 1);
    assert_eq!((e.message.as_str(), e.line, e.column), ("#else without #if", 3, 1));
}

#[test]
fn defines_replace_whole_identifiers() {
    let mut defs = DefineTable::new();
    defs.define("VEL".to_string(), "100".to_string());
    assert_eq!(defs.apply("amp=VEL x_VEL VEL2 (VEL)"), "amp=100 x_VEL VEL2 (100)");
    assert!(defs.is_defined("VEL"));
    assert!(!defs.is_defined("vel"));
}

#[test]
fn opcode_class_reads_integers_and_leaves_fractions() {
    assert!(matches!(classify_opcode_value("60"), OpcodeClass::Integer(60)));
    assert!(matches!(classify_opcode_value(" -12 "), OpcodeClass::Integer(-12)));
    assert!(matches!(classify_opcode_value("0.5"), OpcodeClass::Other(ref t) if t == "0.5"));
    assert!(matches!(classify_opcode_value("-6.0"), OpcodeClass::Other(ref t) if t == "-6.0"));
}

#[test]
fn opcode_class_reads_boolean_words() {
    assert!(matches!(classify_opcode_value("on"), OpcodeClass::Boolean(true)));
    assert!(matches!(classify_opcode_value("OFF"), OpcodeClass::Boolean(false)));
    assert!(matches!(classify_opcode_value("yes"), OpcodeClass::Boolean(true)));
    assert!(matches!(classify_opcode_value("no"), OpcodeClass::Boolean(false)));
}

#[test]
fn opcode_class_reads_note_names_before_text() {
    assert!(matches!(classify_opcode_value("c4"), OpcodeClass::Integer(60)));
    assert!(matches!(classify_opcode_value("C#4"), OpcodeClass::Integer(61)));
    assert!(matches!(classify_opcode_value("Db5"), OpcodeClass::Integer(73)));
    assert!(matches!(classify_opcode_value("F#3"), OpcodeClass::Integer(54)));
    assert!(matches!(classify_opcode_value("g-1"), OpcodeClass::Integer(7)));
    assert!(matches!(classify_opcode_value(" test.wav "), OpcodeClass::Other(ref t) if t == "test.wav"));
    assert!(matches!(classify_opcode_value("   "), OpcodeClass::Other(ref t) if t.is_empty()));
}
