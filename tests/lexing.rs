use teenyat::arch::{OpCode, RegMnem};
use teenyat::lexer::{escape_char, preprocess, tokenize, Token};

fn chars(s: &str) -> Vec<char> {
    s.chars().collect()
}

#[test]
fn preprocess_trims_cuts_and_expands() {
    let p: String = preprocess(&chars("  jmp :a, ; go\t")).into_iter().collect();
    assert_eq!(p, "set pc  :a ");
    let p: String = preprocess(&chars("RET")).into_iter().collect();
    assert_eq!(p, "pop pc ");
    let p: String = preprocess(&chars("stor ax OUT")).into_iter().collect();
    assert_eq!(p, "stor ax 0x8000");
    let p: String = preprocess(&chars("load ax IN")).into_iter().collect();
    assert_eq!(p, "load ax 0x8001");
    let p: String = preprocess(&chars("stor ax END")).into_iter().collect();
    assert_eq!(p, "stor ax 0xffff");
}

#[test]
fn preprocess_is_purely_lexical() {
    let p: String = preprocess(&chars("INC ax")).into_iter().collect();
    assert_eq!(p, "0x8001C ax");
}

#[test]
fn tokens_of_a_line() {
    let t = tokenize(&chars("  add ax\tBX  :x  -1 0x10 'a' '\\n' 70000 zz "), 3);
    assert_eq!(
        t,
        vec![
            Token::Op(OpCode::Add),
            Token::Reg(RegMnem::R1),
            Token::Reg(RegMnem::R2),
            Token::Label(":x".to_string(), 3),
            Token::Imm(65535),
            Token::Imm(16),
            Token::Imm(97),
            Token::Imm(10),
            Token::Imm(0),
            Token::Imm(0),
        ]
    );
}

#[test]
fn numbers() {
    assert_eq!(Token::parse_str("65535", 0), Token::Imm(65535));
    assert_eq!(Token::parse_str("+7", 0), Token::Imm(7));
    assert_eq!(Token::parse_str("-32768", 0), Token::Imm(32768));
    assert_eq!(Token::parse_str("-32769", 0), Token::Imm(0));
    assert_eq!(Token::parse_str("0xFFFF", 0), Token::Imm(65535));
    assert_eq!(Token::parse_str("0x10000", 0), Token::Imm(0));
    assert_eq!(Token::parse_str("!lbl", 9), Token::Label("!lbl".to_string(), 9));
    assert!(Token::parse_str("12", 0).is_imm());
    assert!(!Token::parse_str("sp", 0).is_imm());
}

#[test]
fn escapes() {
    assert_eq!(escape_char('a'), 0x07);
    assert_eq!(escape_char('t'), 0x09);
    assert_eq!(escape_char('\\'), 0x5C);
    assert_eq!(escape_char('\''), 0x27);
    assert_eq!(escape_char('"'), 0x22);
    assert_eq!(escape_char('?'), 0x3F);
    assert_eq!(escape_char('q'), 0);
    assert_eq!(Token::parse_str("'\\r'", 0), Token::Imm(13));
}
