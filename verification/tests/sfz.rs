use maolan_plugins::sampler::dsp::sfz::{strip_comments, tokenize, TokenKind};

#[test]
fn test_tokenize_basic() {
    let text = r#"
<global> volume=0
<group> volume=-6
<region> sample=test.wav key=60 lokey=58 hikey=62
"#;
    let tokens = tokenize(text);
    assert_eq!(tokens.len(), 9);
    assert!(matches!(&tokens[0].kind, TokenKind::Header(n) if n == "global"));
    assert!(matches!(&tokens[1].kind, TokenKind::Opcode(k, v) if k == "volume" && v == "0"));
    assert!(matches!(&tokens[2].kind, TokenKind::Header(n) if n == "group"));
    assert!(matches!(&tokens[3].kind, TokenKind::Opcode(k, v) if k == "volume" && v == "-6"));
    assert!(matches!(&tokens[4].kind, TokenKind::Header(n) if n == "region"));
    assert!(
        matches!(&tokens[5].kind, TokenKind::Opcode(k, v) if k == "sample" && v == "test.wav")
    );
    assert!(matches!(&tokens[6].kind, TokenKind::Opcode(k, v) if k == "key" && v == "60"));
    assert!(matches!(&tokens[7].kind, TokenKind::Opcode(k, v) if k == "lokey" && v == "58"));
    assert!(matches!(&tokens[8].kind, TokenKind::Opcode(k, v) if k == "hikey" && v == "62"));
}

#[test]
fn test_tokenize_block_comment() {
    let text = "/* comment */\n<region> sample=a.wav";
    let tokens = tokenize(&strip_comments(text));
    assert_eq!(tokens.len(), 2);
}

#[test]
fn test_tokenize_line_comment() {
    let text = "// comment\n<region> sample=a.wav";
    let tokens = tokenize(&strip_comments(text));
    assert_eq!(tokens.len(), 2);
}

#[test]
fn test_tokenize_escaped_path_value() {
    let text = r"<region> sample=Drums/Kick\ 01.wav key=36";
    let tokens = tokenize(text);
    assert_eq!(tokens.len(), 3);
    assert!(
        matches!(&tokens[1].kind, TokenKind::Opcode(k, v) if k == "sample" && v == "Drums/Kick 01.wav")
    );
}

#[test]
fn test_tokenize_preserves_path_backslashes() {
    let text = r"<region> sample=C:\Samples\Kick.wav key=36";
    let tokens = tokenize(text);
    assert_eq!(tokens.len(), 3);
    assert!(
        matches!(&tokens[1].kind, TokenKind::Opcode(k, v) if k == "sample" && v == r"C:\Samples\Kick.wav")
    );
}

#[test]
fn test_preprocess_comments_preserve_lines() {
    let text = "<global> volume=0 // ignored\n<region> sample=a.wav";
    let result = strip_comments(text);
    assert_eq!(result.lines().count(), 2);
    let tokens = tokenize(&result);
    assert_eq!(tokens.len(), 4);
}

#[test]
fn block_comments_become_spaces_of_the_same_shape() {
    assert_eq!(strip_comments("/*ab*/x"), "      x");
    assert_eq!(strip_comments("a/*1\n2*/b"), "a   \n   b");
    assert_eq!(strip_comments("k=1 /* open"), format!("k=1 {}", " ".repeat(7)));
    assert_eq!(strip_comments("k=1 // note\nx"), "k=1 \nx");
}
