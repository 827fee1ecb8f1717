use raven_frontend::tokens::code_tokenizer::next_code_token;
use raven_frontend::tokens::tokenizer::{Tokenizer, TokenizerState, NESTING_OFFSET};
use raven_frontend::tokens::tokens::{Token, TokenTypes};

fn check_types(types: &[TokenTypes], testing: &str, state: TokenizerState) {
    let mut tokenizer = Tokenizer::new(testing.as_bytes(), state);
    for token_type in types {
        let token = tokenizer.next();
        assert_ne!(token.token_type, TokenTypes::InvalidCharacters);
        assert_eq!(*token_type, token.token_type);
    }
}

fn all_tokens(testing: &str, state: TokenizerState) -> Vec<Token> {
    let mut tokenizer = Tokenizer::new(testing.as_bytes(), state);
    let mut tokens = Vec::new();
    loop {
        let token = tokenizer.next();
        tokens.push(token);
        if token.token_type == TokenTypes::EOF {
            return tokens;
        }
    }
}

fn kinds(testing: &str) -> Vec<TokenTypes> {
    all_tokens(testing, TokenizerState::Code).iter().map(|token| token.token_type).collect()
}

#[test]
fn test_code() {
    let types = [TokenTypes::If, TokenTypes::ParenOpen, TokenTypes::Integer,
        TokenTypes::Operator, TokenTypes::Float, TokenTypes::ParenClose, TokenTypes::CallingType, TokenTypes::ParenOpen,
        TokenTypes::Variable, TokenTypes::ArgumentEnd, TokenTypes::Variable, TokenTypes::ParenClose, TokenTypes::CodeStart];
    let code = "if (1 + 2.2).function(arg, args) {\
        for testing in test {\
        while \"my_str\\\"continues!\"{\
        return something;\
        }\
        }\
        }";
    check_types(&types, code, TokenizerState::Code);
}

#[test]
fn end_to_end_fixture() {
    let code = "if (1 + 2.2).function(arg, args) { for testing in test { while \"str\" { return something; } } }";
    let found = kinds(code);
    assert_eq!(
        &found[..13],
        &[
            TokenTypes::If,
            TokenTypes::ParenOpen,
            TokenTypes::Integer,
            TokenTypes::Operator,
            TokenTypes::Float,
            TokenTypes::ParenClose,
            TokenTypes::CallingType,
            TokenTypes::ParenOpen,
            TokenTypes::Variable,
            TokenTypes::ArgumentEnd,
            TokenTypes::Variable,
            TokenTypes::ParenClose,
            TokenTypes::CodeStart
        ]
    );
    assert_eq!(
        &found[13..],
        &[
            TokenTypes::For,
            TokenTypes::Variable,
            TokenTypes::Variable,
            TokenTypes::Variable,
            TokenTypes::CodeStart,
            TokenTypes::While,
            TokenTypes::StringStart,
            TokenTypes::Variable,
            TokenTypes::StringStart,
            TokenTypes::CodeStart,
            TokenTypes::Return,
            TokenTypes::Variable,
            TokenTypes::LineEnd,
            TokenTypes::CodeEnd,
            TokenTypes::CodeEnd,
            TokenTypes::CodeEnd,
            TokenTypes::EOF
        ]
    );
}

#[test]
fn spans_are_exact() {
    let tokens = all_tokens("  let  x1 = 12.5 ;", TokenizerState::Code);
    assert_eq!(
        tokens,
        vec![
            Token::new(TokenTypes::Let, 2, 5),
            Token::new(TokenTypes::Variable, 7, 9),
            Token::new(TokenTypes::Operator, 10, 11),
            Token::new(TokenTypes::Float, 12, 16),
            Token::new(TokenTypes::LineEnd, 17, 18),
            Token::new(TokenTypes::EOF, 18, 18),
        ]
    );
    assert_eq!(tokens[1].text(b"  let  x1 = 12.5 ;"), b"x1".to_vec());
    assert_eq!(Token::new(TokenTypes::Variable, 5, 99).text(b"short"), Vec::<u8>::new());
}

#[test]
fn spans_increase_and_do_not_overlap() {
    let code = "fn main() { let a = new Point{x: 1, y}; return a.x + .5; }";
    let tokens = all_tokens(code, TokenizerState::TopElement);
    for pair in tokens.windows(2) {
        assert!(pair[0].start < pair[0].end);
        assert!(pair[0].end <= pair[1].start);
        assert!(pair[0].start < pair[1].start);
    }
    let last = tokens.last().unwrap();
    assert_eq!((last.token_type, last.start, last.end), (TokenTypes::EOF, code.len(), code.len()));
}

#[test]
fn tokenizing_twice_yields_the_same_stream() {
    let code = "for i in list { total = total + i; }";
    assert_eq!(all_tokens(code, TokenizerState::Code), all_tokens(code, TokenizerState::Code));
}

#[test]
fn end_of_file_repeats() {
    let mut tokenizer = Tokenizer::new(b"a ", TokenizerState::Code);
    assert_eq!(tokenizer.next(), Token::new(TokenTypes::Variable, 0, 1));
    assert_eq!(tokenizer.next(), Token::new(TokenTypes::EOF, 2, 2));
    assert_eq!(tokenizer.next(), Token::new(TokenTypes::EOF, 2, 2));
    assert_eq!(tokenizer.next(), Token::new(TokenTypes::EOF, 2, 2));
}

#[test]
fn keywords_are_whole_tokens() {
    assert_eq!(kinds("format"), vec![TokenTypes::Variable, TokenTypes::EOF]);
    assert_eq!(kinds("iffy if"), vec![TokenTypes::Variable, TokenTypes::If, TokenTypes::EOF]);
    assert_eq!(kinds("new_value"), vec![TokenTypes::Variable, TokenTypes::EOF]);
    assert_eq!(
        kinds("return break switch for while if else let new"),
        vec![
            TokenTypes::Return,
            TokenTypes::Break,
            TokenTypes::Switch,
            TokenTypes::For,
            TokenTypes::While,
            TokenTypes::If,
            TokenTypes::Else,
            TokenTypes::Let,
            TokenTypes::New,
            TokenTypes::EOF
        ]
    );
    assert_eq!(kinds("if("), vec![TokenTypes::If, TokenTypes::ParenOpen, TokenTypes::EOF]);
}

#[test]
fn dots_and_numbers() {
    assert_eq!(all_tokens(".5", TokenizerState::Code)[0], Token::new(TokenTypes::Float, 0, 2));
    assert_eq!(all_tokens("12", TokenizerState::Code)[0], Token::new(TokenTypes::Integer, 0, 2));
    assert_eq!(
        all_tokens("5.max", TokenizerState::Code),
        vec![
            Token::new(TokenTypes::Integer, 0, 1),
            Token::new(TokenTypes::CallingType, 1, 5),
            Token::new(TokenTypes::EOF, 5, 5)
        ]
    );
    assert_eq!(
        all_tokens("1.5.25", TokenizerState::Code),
        vec![
            Token::new(TokenTypes::Float, 0, 3),
            Token::new(TokenTypes::Float, 3, 6),
            Token::new(TokenTypes::EOF, 6, 6)
        ]
    );
    assert_eq!(
        all_tokens("a.", TokenizerState::Code),
        vec![Token::new(TokenTypes::Variable, 0, 1), Token::new(TokenTypes::EOF, 2, 2)]
    );
    assert_eq!(
        all_tokens(". x", TokenizerState::Code),
        vec![
            Token::new(TokenTypes::InvalidCharacters, 0, 1),
            Token::new(TokenTypes::Variable, 2, 3),
            Token::new(TokenTypes::EOF, 3, 3)
        ]
    );
}

#[test]
fn unclassifiable_bytes_do_not_stop_the_tokenizer() {
    let buffer = [b'a', 0xC3, 0xA9, 1, b'+', b'b'];
    let mut tokenizer = Tokenizer::new(&buffer, TokenizerState::Code);
    let mut found = Vec::new();
    loop {
        let token = tokenizer.next();
        found.push(token);
        if token.token_type == TokenTypes::EOF {
            break;
        }
    }
    assert_eq!(
        found,
        vec![
            Token::new(TokenTypes::Variable, 0, 1),
            Token::new(TokenTypes::InvalidCharacters, 1, 2),
            Token::new(TokenTypes::InvalidCharacters, 2, 3),
            Token::new(TokenTypes::InvalidCharacters, 3, 4),
            Token::new(TokenTypes::Operator, 4, 5),
            Token::new(TokenTypes::Variable, 5, 6),
            Token::new(TokenTypes::EOF, 6, 6)
        ]
    );
}

#[test]
fn register_returns_after_balanced_blocks() {
    let code = "{ a; { b; { } } c; }";
    let mut tokenizer = Tokenizer::new(code.as_bytes(), TokenizerState::CodeToStructTop);
    let before = tokenizer.state;
    assert_eq!(before, 0xC);
    let mut deepest = 0;
    loop {
        let token = tokenizer.next();
        if token.token_type == TokenTypes::EOF {
            break;
        }
        deepest = deepest.max(tokenizer.state);
    }
    assert_eq!(deepest, before + 3 * NESTING_OFFSET);
    assert_eq!(tokenizer.state, before);
    assert_eq!(tokenizer.bracket_depth, 0);
}

#[test]
fn register_steps_by_the_offset() {
    let mut tokenizer = Tokenizer::new(b"{{}}", TokenizerState::Code);
    let states: Vec<u64> = (0..4)
        .map(|_| {
            tokenizer.next();
            tokenizer.state
        })
        .collect();
    assert_eq!(states, vec![0x4 + 0x1FF, 0x4 + 2 * 0x1FF, 0x4 + 0x1FF, 0x4]);
}

#[test]
fn extra_close_leaves_the_code_body() {
    let mut tokenizer = Tokenizer::new(b"}", TokenizerState::Code);
    assert_eq!(tokenizer.next().token_type, TokenTypes::CodeEnd);
    assert_eq!(tokenizer.state, TokenizerState::TopElement.flags());
    assert_eq!(tokenizer.bracket_depth, 0);

    let mut tokenizer = Tokenizer::new(b"{ } } }", TokenizerState::CodeToStructTop);
    for _ in 0..4 {
        tokenizer.next();
    }
    assert_eq!(tokenizer.state, TokenizerState::TopElement.flags());

    let mut tokenizer = Tokenizer::new(b"}", TokenizerState::CodeToStructTop);
    tokenizer.next();
    assert_eq!(tokenizer.state, TokenizerState::TopElementToStruct.flags());
}

#[test]
fn line_end_leaves_a_line_in_a_struct_body() {
    let mut tokenizer = Tokenizer::new(b"a; { b; }", TokenizerState::CodeToStructTop);
    tokenizer.next();
    assert_eq!(tokenizer.next().token_type, TokenTypes::LineEnd);
    assert_eq!(tokenizer.state, TokenizerState::TopElementToStruct.flags());

    let mut tokenizer = Tokenizer::new(b"{ b; }", TokenizerState::CodeToStructTop);
    tokenizer.next();
    tokenizer.next();
    assert_eq!(tokenizer.next().token_type, TokenTypes::LineEnd);
    assert_eq!(tokenizer.state, 0xC + 0x1FF);

    let mut tokenizer = Tokenizer::new(b";", TokenizerState::Code);
    tokenizer.next();
    assert_eq!(tokenizer.state, TokenizerState::Code.flags());
}

#[test]
fn close_with_a_depth_that_the_register_lacks() {
    let mut tokenizer = Tokenizer::new(b"}", TokenizerState::Code);
    let token = next_code_token(&mut tokenizer, 3);
    assert_eq!(token, Token::new(TokenTypes::CodeEnd, 0, 1));
    assert_eq!(tokenizer.state, TokenizerState::TopElement.flags());
}
