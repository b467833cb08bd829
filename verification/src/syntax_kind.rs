//! The kinds of tokens and nodes that a Rust syntax tree is made of.
use vstd::prelude::*;

verus! {

/// What a token or a node of a syntax tree is.
#[allow(non_camel_case_types)]
#[derive(Debug, Clone, Copy, PartialEq, Eq, PartialOrd, Ord, Hash, Structural)]
pub enum SyntaxKind {
    // punctuation
    SEMICOLON,
    COMMA,
    L_PAREN,
    R_PAREN,
    L_CURLY,
    R_CURLY,
    L_BRACK,
    R_BRACK,
    L_ANGLE,
    R_ANGLE,
    AT,
    POUND,
    TILDE,
    QUESTION,
    DOLLAR,
    AMP,
    PIPE,
    PLUS,
    STAR,
    SLASH,
    CARET,
    PERCENT,
    UNDERSCORE,
    DOT,
    DOT2,
    DOT3,
    DOT2EQ,
    COLON,
    COLON2,
    EQ,
    EQ2,
    FAT_ARROW,
    BANG,
    NEQ,
    MINUS,
    THIN_ARROW,
    LTEQ,
    GTEQ,
    PLUSEQ,
    MINUSEQ,
    PIPEEQ,
    AMPEQ,
    CARETEQ,
    SLASHEQ,
    STAREQ,
    PERCENTEQ,
    AMP2,
    PIPE2,
    SHL,
    SHR,
    SHLEQ,
    SHREQ,
    // keywords
    AS_KW,
    ASYNC_KW,
    AWAIT_KW,
    BOX_KW,
    BREAK_KW,
    CONST_KW,
    CONTINUE_KW,
    CRATE_KW,
    DYN_KW,
    ELSE_KW,
    ENUM_KW,
    EXTERN_KW,
    FALSE_KW,
    FN_KW,
    FOR_KW,
    IF_KW,
    IMPL_KW,
    IN_KW,
    LET_KW,
    LOOP_KW,
    MACRO_KW,
    MATCH_KW,
    MOD_KW,
    MOVE_KW,
    MUT_KW,
    PUB_KW,
    REF_KW,
    RETURN_KW,
    SELF_KW,
    STATIC_KW,
    STRUCT_KW,
    SUPER_KW,
    TRAIT_KW,
    TRUE_KW,
    TRY_KW,
    TYPE_KW,
    UNSAFE_KW,
    USE_KW,
    WHERE_KW,
    WHILE_KW,
    YIELD_KW,
    // other tokens
    INT_NUMBER,
    FLOAT_NUMBER,
    CHAR,
    BYTE,
    STRING,
    BYTE_STRING,
    ERROR,
    IDENT,
    WHITESPACE,
    LIFETIME_IDENT,
    COMMENT,
    SHEBANG,
    // nodes
    SOURCE_FILE,
    STRUCT,
    ENUM,
    FN,
    RET_TYPE,
    EXTERN_CRATE,
    MODULE,
    USE,
    STATIC,
    CONST,
    TRAIT,
    IMPL,
    TYPE_ALIAS,
    MACRO_CALL,
    MACRO_RULES,
    TOKEN_TREE,
    PAREN_TYPE,
    TUPLE_TYPE,
    NEVER_TYPE,
    PATH_TYPE,
    PTR_TYPE,
    ARRAY_TYPE,
    SLICE_TYPE,
    REF_TYPE,
    INFER_TYPE,
    FN_PTR_TYPE,
    FOR_TYPE,
    IMPL_TRAIT_TYPE,
    DYN_TRAIT_TYPE,
    OR_PAT,
    PAREN_PAT,
    REF_PAT,
    BOX_PAT,
    IDENT_PAT,
    WILDCARD_PAT,
    REST_PAT,
    PATH_PAT,
    RECORD_PAT,
    RECORD_PAT_FIELD_LIST,
    RECORD_PAT_FIELD,
    TUPLE_STRUCT_PAT,
    TUPLE_PAT,
    SLICE_PAT,
    RANGE_PAT,
    LITERAL_PAT,
    MACRO_PAT,
    CONST_BLOCK_PAT,
    TUPLE_EXPR,
    ARRAY_EXPR,
    PAREN_EXPR,
    PATH_EXPR,
    CLOSURE_EXPR,
    IF_EXPR,
    WHILE_EXPR,
    CONDITION,
    LOOP_EXPR,
    FOR_EXPR,
    CONTINUE_EXPR,
    BREAK_EXPR,
    LABEL,
    BLOCK_EXPR,
    RETURN_EXPR,
    YIELD_EXPR,
    MATCH_EXPR,
    MATCH_ARM_LIST,
    MATCH_ARM,
    MATCH_GUARD,
    RECORD_EXPR,
    RECORD_EXPR_FIELD_LIST,
    RECORD_EXPR_FIELD,
    EFFECT_EXPR,
    BOX_EXPR,
    CALL_EXPR,
    INDEX_EXPR,
    METHOD_CALL_EXPR,
    FIELD_EXPR,
    AWAIT_EXPR,
    TRY_EXPR,
    CAST_EXPR,
    REF_EXPR,
    PREFIX_EXPR,
    RANGE_EXPR,
    BIN_EXPR,
    EXTERN_BLOCK,
    EXTERN_ITEM_LIST,
    VARIANT,
    RECORD_FIELD_LIST,
    RECORD_FIELD,
    TUPLE_FIELD_LIST,
    TUPLE_FIELD,
    VARIANT_LIST,
    ITEM_LIST,
    ASSOC_ITEM_LIST,
    ATTR,
    META,
    USE_TREE,
    USE_TREE_LIST,
    PATH,
    PATH_SEGMENT,
    LITERAL,
    RENAME,
    VISIBILITY,
    WHERE_CLAUSE,
    WHERE_PRED,
    ABI,
    NAME,
    NAME_REF,
    LET_STMT,
    EXPR_STMT,
    GENERIC_PARAM_LIST,
    GENERIC_PARAM,
    LIFETIME,
    LIFETIME_PARAM,
    TYPE_PARAM,
    CONST_PARAM,
    GENERIC_ARG_LIST,
    LIFETIME_ARG,
    TYPE_ARG,
    ASSOC_TYPE_ARG,
    CONST_ARG,
    PARAM_LIST,
    PARAM,
    SELF_PARAM,
    ARG_LIST,
    TYPE_BOUND,
    TYPE_BOUND_LIST,
    MACRO_ITEMS,
    MACRO_STMTS,
    MACRO_DEF,
}

impl SyntaxKind {
    /// Whitespace and comments, which no rule of the grammar mentions.
    pub open spec fn trivia(self) -> bool {
        self == SyntaxKind::WHITESPACE || self == SyntaxKind::COMMENT
    }

    pub fn is_trivia(self) -> (r: bool)
        ensures
            r == self.trivia(),
    {
        self == SyntaxKind::WHITESPACE || self == SyntaxKind::COMMENT
    }

    /// The operators that may stand between the two sides of a binary expression.
    pub open spec fn binary_operator(self) -> bool {
        match self {
            SyntaxKind::PIPE2 | SyntaxKind::AMP2 | SyntaxKind::EQ2 | SyntaxKind::NEQ |
            SyntaxKind::LTEQ | SyntaxKind::GTEQ | SyntaxKind::L_ANGLE | SyntaxKind::R_ANGLE |
            SyntaxKind::PLUS | SyntaxKind::STAR | SyntaxKind::MINUS | SyntaxKind::SLASH |
            SyntaxKind::PERCENT | SyntaxKind::SHL | SyntaxKind::SHR | SyntaxKind::CARET |
            SyntaxKind::PIPE | SyntaxKind::AMP | SyntaxKind::EQ | SyntaxKind::PLUSEQ |
            SyntaxKind::SLASHEQ | SyntaxKind::STAREQ | SyntaxKind::PERCENTEQ | SyntaxKind::SHREQ
            | SyntaxKind::SHLEQ | SyntaxKind::MINUSEQ | SyntaxKind::PIPEEQ | SyntaxKind::AMPEQ |
            SyntaxKind::CARETEQ => true,
            _ => false,
        }
    }

    pub fn is_binary_operator(self) -> (r: bool)
        ensures
            r == self.binary_operator(),
    {
        match self {
            SyntaxKind::PIPE2 | SyntaxKind::AMP2 | SyntaxKind::EQ2 | SyntaxKind::NEQ |
            SyntaxKind::LTEQ | SyntaxKind::GTEQ | SyntaxKind::L_ANGLE | SyntaxKind::R_ANGLE |
            SyntaxKind::PLUS | SyntaxKind::STAR | SyntaxKind::MINUS | SyntaxKind::SLASH |
            SyntaxKind::PERCENT | SyntaxKind::SHL | SyntaxKind::SHR | SyntaxKind::CARET |
            SyntaxKind::PIPE | SyntaxKind::AMP | SyntaxKind::EQ | SyntaxKind::PLUSEQ |
            SyntaxKind::SLASHEQ | SyntaxKind::STAREQ | SyntaxKind::PERCENTEQ | SyntaxKind::SHREQ
            | SyntaxKind::SHLEQ | SyntaxKind::MINUSEQ | SyntaxKind::PIPEEQ | SyntaxKind::AMPEQ |
            SyntaxKind::CARETEQ => true,
            _ => false,
        }
    }

    /// The text that every token of this kind has: punctuation and keywords have one,
    /// literals, names and nodes do not.
    pub open spec fn fixed_text(self) -> Option<&'static str> {
        match self {
            SyntaxKind::SEMICOLON => Some(";"),
            SyntaxKind::COMMA => Some(","),
            SyntaxKind::L_PAREN => Some("("),
            SyntaxKind::R_PAREN => Some(")"),
            SyntaxKind::L_CURLY => Some("{"),
            SyntaxKind::R_CURLY => Some("}"),
            SyntaxKind::L_BRACK => Some("["),
            SyntaxKind::R_BRACK => Some("]"),
            SyntaxKind::L_ANGLE => Some("<"),
            SyntaxKind::R_ANGLE => Some(">"),
            SyntaxKind::AT => Some("@"),
            SyntaxKind::POUND => Some("#"),
            SyntaxKind::TILDE => Some("~"),
            SyntaxKind::QUESTION => Some("?"),
            SyntaxKind::DOLLAR => Some("$"),
            SyntaxKind::AMP => Some("&"),
            SyntaxKind::PIPE => Some("|"),
            SyntaxKind::PLUS => Some("+"),
            SyntaxKind::STAR => Some("*"),
            SyntaxKind::SLASH => Some("/"),
            SyntaxKind::CARET => Some("^"),
            SyntaxKind::PERCENT => Some("%"),
            SyntaxKind::UNDERSCORE => Some("_"),
            SyntaxKind::DOT => Some("."),
            SyntaxKind::DOT2 => Some(".."),
            SyntaxKind::DOT3 => Some("..."),
            SyntaxKind::DOT2EQ => Some("..="),
            SyntaxKind::COLON => Some(":"),
            SyntaxKind::COLON2 => Some("::"),
            SyntaxKind::EQ => Some("="),
            SyntaxKind::EQ2 => Some("=="),
            SyntaxKind::FAT_ARROW => Some("=>"),
            SyntaxKind::BANG => Some("!"),
            SyntaxKind::NEQ => Some("!="),
            SyntaxKind::MINUS => Some("-"),
            SyntaxKind::THIN_ARROW => Some("->"),
            SyntaxKind::LTEQ => Some("<="),
            SyntaxKind::GTEQ => Some(">="),
            SyntaxKind::PLUSEQ => Some("+="),
            SyntaxKind::MINUSEQ => Some("-="),
            SyntaxKind::PIPEEQ => Some("|="),
            SyntaxKind::AMPEQ => Some("&="),
            SyntaxKind::CARETEQ => Some("^="),
            SyntaxKind::SLASHEQ => Some("/="),
            SyntaxKind::STAREQ => Some("*="),
            SyntaxKind::PERCENTEQ => Some("%="),
            SyntaxKind::AMP2 => Some("&&"),
            SyntaxKind::PIPE2 => Some("||"),
            SyntaxKind::SHL => Some("<<"),
            SyntaxKind::SHR => Some(">>"),
            SyntaxKind::SHLEQ => Some("<<="),
            SyntaxKind::SHREQ => Some(">>="),
            SyntaxKind::AS_KW => Some("as"),
            SyntaxKind::ASYNC_KW => Some("async"),
            SyntaxKind::AWAIT_KW => Some("await"),
            SyntaxKind::BOX_KW => Some("box"),
            SyntaxKind::BREAK_KW => Some("break"),
            SyntaxKind::CONST_KW => Some("const"),
            SyntaxKind::CONTINUE_KW => Some("continue"),
            SyntaxKind::CRATE_KW => Some("crate"),
            SyntaxKind::DYN_KW => Some("dyn"),
            SyntaxKind::ELSE_KW => Some("else"),
            SyntaxKind::ENUM_KW => Some("enum"),
            SyntaxKind::EXTERN_KW => Some("extern"),
            SyntaxKind::FALSE_KW => Some("false"),
            SyntaxKind::FN_KW => Some("fn"),
            SyntaxKind::FOR_KW => Some("for"),
            SyntaxKind::IF_KW => Some("if"),
            SyntaxKind::IMPL_KW => Some("impl"),
            SyntaxKind::IN_KW => Some("in"),
            SyntaxKind::LET_KW => Some("let"),
            SyntaxKind::LOOP_KW => Some("loop"),
            SyntaxKind::MACRO_KW => Some("macro"),
            SyntaxKind::MATCH_KW => Some("match"),
            SyntaxKind::MOD_KW => Some("mod"),
            SyntaxKind::MOVE_KW => Some("move"),
            SyntaxKind::MUT_KW => Some("mut"),
            SyntaxKind::PUB_KW => Some("pub"),
            SyntaxKind::REF_KW => Some("ref"),
            SyntaxKind::RETURN_KW => Some("return"),
            SyntaxKind::SELF_KW => Some("self"),
            SyntaxKind::STATIC_KW => Some("static"),
            SyntaxKind::STRUCT_KW => Some("struct"),
            SyntaxKind::SUPER_KW => Some("super"),
            SyntaxKind::TRAIT_KW => Some("trait"),
            SyntaxKind::TRUE_KW => Some("true"),
            SyntaxKind::TRY_KW => Some("try"),
            SyntaxKind::TYPE_KW => Some("type"),
            SyntaxKind::UNSAFE_KW => Some("unsafe"),
            SyntaxKind::USE_KW => Some("use"),
            SyntaxKind::WHERE_KW => Some("where"),
            SyntaxKind::WHILE_KW => Some("while"),
            SyntaxKind::YIELD_KW => Some("yield"),
            _ => None,
        }
    }

    pub fn text(self) -> (r: Option<&'static str>)
        ensures
            r == self.fixed_text(),
    {
        match self {
            SyntaxKind::SEMICOLON => Some(";"),
            SyntaxKind::COMMA => Some(","),
            SyntaxKind::L_PAREN => Some("("),
            SyntaxKind::R_PAREN => Some(")"),
            SyntaxKind::L_CURLY => Some("{"),
            SyntaxKind::R_CURLY => Some("}"),
            SyntaxKind::L_BRACK => Some("["),
            SyntaxKind::R_BRACK => Some("]"),
            SyntaxKind::L_ANGLE => Some("<"),
            SyntaxKind::R_ANGLE => Some(">"),
            SyntaxKind::AT => Some("@"),
            SyntaxKind::POUND => Some("#"),
            SyntaxKind::TILDE => Some("~"),
            SyntaxKind::QUESTION => Some("?"),
            SyntaxKind::DOLLAR => Some("$"),
            SyntaxKind::AMP => Some("&"),
            SyntaxKind::PIPE => Some("|"),
            SyntaxKind::PLUS => Some("+"),
            SyntaxKind::STAR => Some("*"),
            SyntaxKind::SLASH => Some("/"),
            SyntaxKind::CARET => Some("^"),
            SyntaxKind::PERCENT => Some("%"),
            SyntaxKind::UNDERSCORE => Some("_"),
            SyntaxKind::DOT => Some("."),
            SyntaxKind::DOT2 => Some(".."),
            SyntaxKind::DOT3 => Some("..."),
            SyntaxKind::DOT2EQ => Some("..="),
            SyntaxKind::COLON => Some(":"),
            SyntaxKind::COLON2 => Some("::"),
            SyntaxKind::EQ => Some("="),
            SyntaxKind::EQ2 => Some("=="),
            SyntaxKind::FAT_ARROW => Some("=>"),
            SyntaxKind::BANG => Some("!"),
            SyntaxKind::NEQ => Some("!="),
            SyntaxKind::MINUS => Some("-"),
            SyntaxKind::THIN_ARROW => Some("->"),
            SyntaxKind::LTEQ => Some("<="),
            SyntaxKind::GTEQ => Some(">="),
            SyntaxKind::PLUSEQ => Some("+="),
            SyntaxKind::MINUSEQ => Some("-="),
            SyntaxKind::PIPEEQ => Some("|="),
            SyntaxKind::AMPEQ => Some("&="),
            SyntaxKind::CARETEQ => Some("^="),
            SyntaxKind::SLASHEQ => Some("/="),
            SyntaxKind::STAREQ => Some("*="),
            SyntaxKind::PERCENTEQ => Some("%="),
            SyntaxKind::AMP2 => Some("&&"),
            SyntaxKind::PIPE2 => Some("||"),
            SyntaxKind::SHL => Some("<<"),
            SyntaxKind::SHR => Some(">>"),
            SyntaxKind::SHLEQ => Some("<<="),
            SyntaxKind::SHREQ => Some(">>="),
            SyntaxKind::AS_KW => Some("as"),
            SyntaxKind::ASYNC_KW => Some("async"),
            SyntaxKind::AWAIT_KW => Some("await"),
            SyntaxKind::BOX_KW => Some("box"),
            SyntaxKind::BREAK_KW => Some("break"),
            SyntaxKind::CONST_KW => Some("const"),
            SyntaxKind::CONTINUE_KW => Some("continue"),
            SyntaxKind::CRATE_KW => Some("crate"),
            SyntaxKind::DYN_KW => Some("dyn"),
            SyntaxKind::ELSE_KW => Some("else"),
            SyntaxKind::ENUM_KW => Some("enum"),
            SyntaxKind::EXTERN_KW => Some("extern"),
            SyntaxKind::FALSE_KW => Some("false"),
            SyntaxKind::FN_KW => Some("fn"),
            SyntaxKind::FOR_KW => Some("for"),
            SyntaxKind::IF_KW => Some("if"),
            SyntaxKind::IMPL_KW => Some("impl"),
            SyntaxKind::IN_KW => Some("in"),
            SyntaxKind::LET_KW => Some("let"),
            SyntaxKind::LOOP_KW => Some("loop"),
            SyntaxKind::MACRO_KW => Some("macro"),
            SyntaxKind::MATCH_KW => Some("match"),
            SyntaxKind::MOD_KW => Some("mod"),
            SyntaxKind::MOVE_KW => Some("move"),
            SyntaxKind::MUT_KW => Some("mut"),
            SyntaxKind::PUB_KW => Some("pub"),
            SyntaxKind::REF_KW => Some("ref"),
            SyntaxKind::RETURN_KW => Some("return"),
            SyntaxKind::SELF_KW => Some("self"),
            SyntaxKind::STATIC_KW => Some("static"),
            SyntaxKind::STRUCT_KW => Some("struct"),
            SyntaxKind::SUPER_KW => Some("super"),
            SyntaxKind::TRAIT_KW => Some("trait"),
            SyntaxKind::TRUE_KW => Some("true"),
            SyntaxKind::TRY_KW => Some("try"),
            SyntaxKind::TYPE_KW => Some("type"),
            SyntaxKind::UNSAFE_KW => Some("unsafe"),
            SyntaxKind::USE_KW => Some("use"),
            SyntaxKind::WHERE_KW => Some("where"),
            SyntaxKind::WHILE_KW => Some("while"),
            SyntaxKind::YIELD_KW => Some("yield"),
            _ => None,
        }
    }

    /// The number that stands for this kind in an untyped tree.
    pub open spec fn raw(self) -> u16 {
        match self {
            SyntaxKind::SEMICOLON => 0,
            SyntaxKind::COMMA => 1,
            SyntaxKind::L_PAREN => 2,
            SyntaxKind::R_PAREN => 3,
            SyntaxKind::L_CURLY => 4,
            SyntaxKind::R_CURLY => 5,
            SyntaxKind::L_BRACK => 6,
            SyntaxKind::R_BRACK => 7,
            SyntaxKind::L_ANGLE => 8,
            SyntaxKind::R_ANGLE => 9,
            SyntaxKind::AT => 10,
            SyntaxKind::POUND => 11,
            SyntaxKind::TILDE => 12,
            SyntaxKind::QUESTION => 13,
            SyntaxKind::DOLLAR => 14,
            SyntaxKind::AMP => 15,
            SyntaxKind::PIPE => 16,
            SyntaxKind::PLUS => 17,
            SyntaxKind::STAR => 18,
            SyntaxKind::SLASH => 19,
            SyntaxKind::CARET => 20,
            SyntaxKind::PERCENT => 21,
            SyntaxKind::UNDERSCORE => 22,
            SyntaxKind::DOT => 23,
            SyntaxKind::DOT2 => 24,
            SyntaxKind::DOT3 => 25,
            SyntaxKind::DOT2EQ => 26,
            SyntaxKind::COLON => 27,
            SyntaxKind::COLON2 => 28,
            SyntaxKind::EQ => 29,
            SyntaxKind::EQ2 => 30,
            SyntaxKind::FAT_ARROW => 31,
            SyntaxKind::BANG => 32,
            SyntaxKind::NEQ => 33,
            SyntaxKind::MINUS => 34,
            SyntaxKind::THIN_ARROW => 35,
            SyntaxKind::LTEQ => 36,
            SyntaxKind::GTEQ => 37,
            SyntaxKind::PLUSEQ => 38,
            SyntaxKind::MINUSEQ => 39,
            SyntaxKind::PIPEEQ => 40,
            SyntaxKind::AMPEQ => 41,
            SyntaxKind::CARETEQ => 42,
            SyntaxKind::SLASHEQ => 43,
            SyntaxKind::STAREQ => 44,
            SyntaxKind::PERCENTEQ => 45,
            SyntaxKind::AMP2 => 46,
            SyntaxKind::PIPE2 => 47,
            SyntaxKind::SHL => 48,
            SyntaxKind::SHR => 49,
            SyntaxKind::SHLEQ => 50,
            SyntaxKind::SHREQ => 51,
            SyntaxKind::AS_KW => 52,
            SyntaxKind::ASYNC_KW => 53,
            SyntaxKind::AWAIT_KW => 54,
            SyntaxKind::BOX_KW => 55,
            SyntaxKind::BREAK_KW => 56,
            SyntaxKind::CONST_KW => 57,
            SyntaxKind::CONTINUE_KW => 58,
            SyntaxKind::CRATE_KW => 59,
            SyntaxKind::DYN_KW => 60,
            SyntaxKind::ELSE_KW => 61,
            SyntaxKind::ENUM_KW => 62,
            SyntaxKind::EXTERN_KW => 63,
            SyntaxKind::FALSE_KW => 64,
            SyntaxKind::FN_KW => 65,
            SyntaxKind::FOR_KW => 66,
            SyntaxKind::IF_KW => 67,
            SyntaxKind::IMPL_KW => 68,
            SyntaxKind::IN_KW => 69,
            SyntaxKind::LET_KW => 70,
            SyntaxKind::LOOP_KW => 71,
            SyntaxKind::MACRO_KW => 72,
            SyntaxKind::MATCH_KW => 73,
            SyntaxKind::MOD_KW => 74,
            SyntaxKind::MOVE_KW => 75,
            SyntaxKind::MUT_KW => 76,
            SyntaxKind::PUB_KW => 77,
            SyntaxKind::REF_KW => 78,
            SyntaxKind::RETURN_KW => 79,
            SyntaxKind::SELF_KW => 80,
            SyntaxKind::STATIC_KW => 81,
            SyntaxKind::STRUCT_KW => 82,
            SyntaxKind::SUPER_KW => 83,
            SyntaxKind::TRAIT_KW => 84,
            SyntaxKind::TRUE_KW => 85,
            SyntaxKind::TRY_KW => 86,
            SyntaxKind::TYPE_KW => 87,
            SyntaxKind::UNSAFE_KW => 88,
            SyntaxKind::USE_KW => 89,
            SyntaxKind::WHERE_KW => 90,
            SyntaxKind::WHILE_KW => 91,
            SyntaxKind::YIELD_KW => 92,
            SyntaxKind::INT_NUMBER => 93,
            SyntaxKind::FLOAT_NUMBER => 94,
            SyntaxKind::CHAR => 95,
            SyntaxKind::BYTE => 96,
            SyntaxKind::STRING => 97,
            SyntaxKind::BYTE_STRING => 98,
            SyntaxKind::ERROR => 99,
            SyntaxKind::IDENT => 100,
            SyntaxKind::WHITESPACE => 101,
            SyntaxKind::LIFETIME_IDENT => 102,
            SyntaxKind::COMMENT => 103,
            SyntaxKind::SHEBANG => 104,
            SyntaxKind::SOURCE_FILE => 105,
            SyntaxKind::STRUCT => 106,
            SyntaxKind::ENUM => 107,
            SyntaxKind::FN => 108,
            SyntaxKind::RET_TYPE => 109,
            SyntaxKind::EXTERN_CRATE => 110,
            SyntaxKind::MODULE => 111,
            SyntaxKind::USE => 112,
            SyntaxKind::STATIC => 113,
            SyntaxKind::CONST => 114,
            SyntaxKind::TRAIT => 115,
            SyntaxKind::IMPL => 116,
            SyntaxKind::TYPE_ALIAS => 117,
            SyntaxKind::MACRO_CALL => 118,
            SyntaxKind::MACRO_RULES => 119,
            SyntaxKind::TOKEN_TREE => 120,
            SyntaxKind::PAREN_TYPE => 121,
            SyntaxKind::TUPLE_TYPE => 122,
            SyntaxKind::NEVER_TYPE => 123,
            SyntaxKind::PATH_TYPE => 124,
            SyntaxKind::PTR_TYPE => 125,
            SyntaxKind::ARRAY_TYPE => 126,
            SyntaxKind::SLICE_TYPE => 127,
            SyntaxKind::REF_TYPE => 128,
            SyntaxKind::INFER_TYPE => 129,
            SyntaxKind::FN_PTR_TYPE => 130,
            SyntaxKind::FOR_TYPE => 131,
            SyntaxKind::IMPL_TRAIT_TYPE => 132,
            SyntaxKind::DYN_TRAIT_TYPE => 133,
            SyntaxKind::OR_PAT => 134,
            SyntaxKind::PAREN_PAT => 135,
            SyntaxKind::REF_PAT => 136,
            SyntaxKind::BOX_PAT => 137,
            SyntaxKind::IDENT_PAT => 138,
            SyntaxKind::WILDCARD_PAT => 139,
            SyntaxKind::REST_PAT => 140,
            SyntaxKind::PATH_PAT => 141,
            SyntaxKind::RECORD_PAT => 142,
            SyntaxKind::RECORD_PAT_FIELD_LIST => 143,
            SyntaxKind::RECORD_PAT_FIELD => 144,
            SyntaxKind::TUPLE_STRUCT_PAT => 145,
            SyntaxKind::TUPLE_PAT => 146,
            SyntaxKind::SLICE_PAT => 147,
            SyntaxKind::RANGE_PAT => 148,
            SyntaxKind::LITERAL_PAT => 149,
            SyntaxKind::MACRO_PAT => 150,
            SyntaxKind::CONST_BLOCK_PAT => 151,
            SyntaxKind::TUPLE_EXPR => 152,
            SyntaxKind::ARRAY_EXPR => 153,
            SyntaxKind::PAREN_EXPR => 154,
            SyntaxKind::PATH_EXPR => 155,
            SyntaxKind::CLOSURE_EXPR => 156,
            SyntaxKind::IF_EXPR => 157,
            SyntaxKind::WHILE_EXPR => 158,
            SyntaxKind::CONDITION => 159,
            SyntaxKind::LOOP_EXPR => 160,
            SyntaxKind::FOR_EXPR => 161,
            SyntaxKind::CONTINUE_EXPR => 162,
            SyntaxKind::BREAK_EXPR => 163,
            SyntaxKind::LABEL => 164,
            SyntaxKind::BLOCK_EXPR => 165,
            SyntaxKind::RETURN_EXPR => 166,
            SyntaxKind::YIELD_EXPR => 167,
            SyntaxKind::MATCH_EXPR => 168,
            SyntaxKind::MATCH_ARM_LIST => 169,
            SyntaxKind::MATCH_ARM => 170,
            SyntaxKind::MATCH_GUARD => 171,
            SyntaxKind::RECORD_EXPR => 172,
            SyntaxKind::RECORD_EXPR_FIELD_LIST => 173,
            SyntaxKind::RECORD_EXPR_FIELD => 174,
            SyntaxKind::EFFECT_EXPR => 175,
            SyntaxKind::BOX_EXPR => 176,
            SyntaxKind::CALL_EXPR => 177,
            SyntaxKind::INDEX_EXPR => 178,
            SyntaxKind::METHOD_CALL_EXPR => 179,
            SyntaxKind::FIELD_EXPR => 180,
            SyntaxKind::AWAIT_EXPR => 181,
            SyntaxKind::TRY_EXPR => 182,
            SyntaxKind::CAST_EXPR => 183,
            SyntaxKind::REF_EXPR => 184,
            SyntaxKind::PREFIX_EXPR => 185,
            SyntaxKind::RANGE_EXPR => 186,
            SyntaxKind::BIN_EXPR => 187,
            SyntaxKind::EXTERN_BLOCK => 188,
            SyntaxKind::EXTERN_ITEM_LIST => 189,
            SyntaxKind::VARIANT => 190,
            SyntaxKind::RECORD_FIELD_LIST => 191,
            SyntaxKind::RECORD_FIELD => 192,
            SyntaxKind::TUPLE_FIELD_LIST => 193,
            SyntaxKind::TUPLE_FIELD => 194,
            SyntaxKind::VARIANT_LIST => 195,
            SyntaxKind::ITEM_LIST => 196,
            SyntaxKind::ASSOC_ITEM_LIST => 197,
            SyntaxKind::ATTR => 198,
            SyntaxKind::META => 199,
            SyntaxKind::USE_TREE => 200,
            SyntaxKind::USE_TREE_LIST => 201,
            SyntaxKind::PATH => 202,
            SyntaxKind::PATH_SEGMENT => 203,
            SyntaxKind::LITERAL => 204,
            SyntaxKind::RENAME => 205,
            SyntaxKind::VISIBILITY => 206,
            SyntaxKind::WHERE_CLAUSE => 207,
            SyntaxKind::WHERE_PRED => 208,
            SyntaxKind::ABI => 209,
            SyntaxKind::NAME => 210,
            SyntaxKind::NAME_REF => 211,
            SyntaxKind::LET_STMT => 212,
            SyntaxKind::EXPR_STMT => 213,
            SyntaxKind::GENERIC_PARAM_LIST => 214,
            SyntaxKind::GENERIC_PARAM => 215,
            SyntaxKind::LIFETIME => 216,
            SyntaxKind::LIFETIME_PARAM => 217,
            SyntaxKind::TYPE_PARAM => 218,
            SyntaxKind::CONST_PARAM => 219,
            SyntaxKind::GENERIC_ARG_LIST => 220,
            SyntaxKind::LIFETIME_ARG => 221,
            SyntaxKind::TYPE_ARG => 222,
            SyntaxKind::ASSOC_TYPE_ARG => 223,
            SyntaxKind::CONST_ARG => 224,
            SyntaxKind::PARAM_LIST => 225,
            SyntaxKind::PARAM => 226,
            SyntaxKind::SELF_PARAM => 227,
            SyntaxKind::ARG_LIST => 228,
            SyntaxKind::TYPE_BOUND => 229,
            SyntaxKind::TYPE_BOUND_LIST => 230,
            SyntaxKind::MACRO_ITEMS => 231,
            SyntaxKind::MACRO_STMTS => 232,
            SyntaxKind::MACRO_DEF => 233,
        }
    }

    pub fn to_raw(self) -> (r: u16)
        ensures
            r == self.raw(),
    {
        match self {
            SyntaxKind::SEMICOLON => 0,
            SyntaxKind::COMMA => 1,
            SyntaxKind::L_PAREN => 2,
            SyntaxKind::R_PAREN => 3,
            SyntaxKind::L_CURLY => 4,
            SyntaxKind::R_CURLY => 5,
            SyntaxKind::L_BRACK => 6,
            SyntaxKind::R_BRACK => 7,
            SyntaxKind::L_ANGLE => 8,
            SyntaxKind::R_ANGLE => 9,
            SyntaxKind::AT => 10,
            SyntaxKind::POUND => 11,
            SyntaxKind::TILDE => 12,
            SyntaxKind::QUESTION => 13,
            SyntaxKind::DOLLAR => 14,
            SyntaxKind::AMP => 15,
            SyntaxKind::PIPE => 16,
            SyntaxKind::PLUS => 17,
            SyntaxKind::STAR => 18,
            SyntaxKind::SLASH => 19,
            SyntaxKind::CARET => 20,
            SyntaxKind::PERCENT => 21,
            SyntaxKind::UNDERSCORE => 22,
            SyntaxKind::DOT => 23,
            SyntaxKind::DOT2 => 24,
            SyntaxKind::DOT3 => 25,
            SyntaxKind::DOT2EQ => 26,
            SyntaxKind::COLON => 27,
            SyntaxKind::COLON2 => 28,
            SyntaxKind::EQ => 29,
            SyntaxKind::EQ2 => 30,
            SyntaxKind::FAT_ARROW => 31,
            SyntaxKind::BANG => 32,
            SyntaxKind::NEQ => 33,
            SyntaxKind::MINUS => 34,
            SyntaxKind::THIN_ARROW => 35,
            SyntaxKind::LTEQ => 36,
            SyntaxKind::GTEQ => 37,
            SyntaxKind::PLUSEQ => 38,
            SyntaxKind::MINUSEQ => 39,
            SyntaxKind::PIPEEQ => 40,
            SyntaxKind::AMPEQ => 41,
            SyntaxKind::CARETEQ => 42,
            SyntaxKind::SLASHEQ => 43,
            SyntaxKind::STAREQ => 44,
            SyntaxKind::PERCENTEQ => 45,
            SyntaxKind::AMP2 => 46,
            SyntaxKind::PIPE2 => 47,
            SyntaxKind::SHL => 48,
            SyntaxKind::SHR => 49,
            SyntaxKind::SHLEQ => 50,
            SyntaxKind::SHREQ => 51,
            SyntaxKind::AS_KW => 52,
            SyntaxKind::ASYNC_KW => 53,
            SyntaxKind::AWAIT_KW => 54,
            SyntaxKind::BOX_KW => 55,
            SyntaxKind::BREAK_KW => 56,
            SyntaxKind::CONST_KW => 57,
            SyntaxKind::CONTINUE_KW => 58,
            SyntaxKind::CRATE_KW => 59,
            SyntaxKind::DYN_KW => 60,
            SyntaxKind::ELSE_KW => 61,
            SyntaxKind::ENUM_KW => 62,
            SyntaxKind::EXTERN_KW => 63,
            SyntaxKind::FALSE_KW => 64,
            SyntaxKind::FN_KW => 65,
            SyntaxKind::FOR_KW => 66,
            SyntaxKind::IF_KW => 67,
            SyntaxKind::IMPL_KW => 68,
            SyntaxKind::IN_KW => 69,
            SyntaxKind::LET_KW => 70,
            SyntaxKind::LOOP_KW => 71,
            SyntaxKind::MACRO_KW => 72,
            SyntaxKind::MATCH_KW => 73,
            SyntaxKind::MOD_KW => 74,
            SyntaxKind::MOVE_KW => 75,
            SyntaxKind::MUT_KW => 76,
            SyntaxKind::PUB_KW => 77,
            SyntaxKind::REF_KW => 78,
            SyntaxKind::RETURN_KW => 79,
            SyntaxKind::SELF_KW => 80,
            SyntaxKind::STATIC_KW => 81,
            SyntaxKind::STRUCT_KW => 82,
            SyntaxKind::SUPER_KW => 83,
            SyntaxKind::TRAIT_KW => 84,
            SyntaxKind::TRUE_KW => 85,
            SyntaxKind::TRY_KW => 86,
            SyntaxKind::TYPE_KW => 87,
            SyntaxKind::UNSAFE_KW => 88,
            SyntaxKind::USE_KW => 89,
            SyntaxKind::WHERE_KW => 90,
            SyntaxKind::WHILE_KW => 91,
            SyntaxKind::YIELD_KW => 92,
            SyntaxKind::INT_NUMBER => 93,
            SyntaxKind::FLOAT_NUMBER => 94,
            SyntaxKind::CHAR => 95,
            SyntaxKind::BYTE => 96,
            SyntaxKind::STRING => 97,
            SyntaxKind::BYTE_STRING => 98,
            SyntaxKind::ERROR => 99,
            SyntaxKind::IDENT => 100,
            SyntaxKind::WHITESPACE => 101,
            SyntaxKind::LIFETIME_IDENT => 102,
            SyntaxKind::COMMENT => 103,
            SyntaxKind::SHEBANG => 104,
            SyntaxKind::SOURCE_FILE => 105,
            SyntaxKind::STRUCT => 106,
            SyntaxKind::ENUM => 107,
            SyntaxKind::FN => 108,
            SyntaxKind::RET_TYPE => 109,
            SyntaxKind::EXTERN_CRATE => 110,
            SyntaxKind::MODULE => 111,
            SyntaxKind::USE => 112,
            SyntaxKind::STATIC => 113,
            SyntaxKind::CONST => 114,
            SyntaxKind::TRAIT => 115,
            SyntaxKind::IMPL => 116,
            SyntaxKind::TYPE_ALIAS => 117,
            SyntaxKind::MACRO_CALL => 118,
            SyntaxKind::MACRO_RULES => 119,
            SyntaxKind::TOKEN_TREE => 120,
            SyntaxKind::PAREN_TYPE => 121,
            SyntaxKind::TUPLE_TYPE => 122,
            SyntaxKind::NEVER_TYPE => 123,
            SyntaxKind::PATH_TYPE => 124,
            SyntaxKind::PTR_TYPE => 125,
            SyntaxKind::ARRAY_TYPE => 126,
            SyntaxKind::SLICE_TYPE => 127,
            SyntaxKind::REF_TYPE => 128,
            SyntaxKind::INFER_TYPE => 129,
            SyntaxKind::FN_PTR_TYPE => 130,
            SyntaxKind::FOR_TYPE => 131,
            SyntaxKind::IMPL_TRAIT_TYPE => 132,
            SyntaxKind::DYN_TRAIT_TYPE => 133,
            SyntaxKind::OR_PAT => 134,
            SyntaxKind::PAREN_PAT => 135,
            SyntaxKind::REF_PAT => 136,
            SyntaxKind::BOX_PAT => 137,
            SyntaxKind::IDENT_PAT => 138,
            SyntaxKind::WILDCARD_PAT => 139,
            SyntaxKind::REST_PAT => 140,
            SyntaxKind::PATH_PAT => 141,
            SyntaxKind::RECORD_PAT => 142,
            SyntaxKind::RECORD_PAT_FIELD_LIST => 143,
            SyntaxKind::RECORD_PAT_FIELD => 144,
            SyntaxKind::TUPLE_STRUCT_PAT => 145,
            SyntaxKind::TUPLE_PAT => 146,
            SyntaxKind::SLICE_PAT => 147,
            SyntaxKind::RANGE_PAT => 148,
            SyntaxKind::LITERAL_PAT => 149,
            SyntaxKind::MACRO_PAT => 150,
            SyntaxKind::CONST_BLOCK_PAT => 151,
            SyntaxKind::TUPLE_EXPR => 152,
            SyntaxKind::ARRAY_EXPR => 153,
            SyntaxKind::PAREN_EXPR => 154,
            SyntaxKind::PATH_EXPR => 155,
            SyntaxKind::CLOSURE_EXPR => 156,
            SyntaxKind::IF_EXPR => 157,
            SyntaxKind::WHILE_EXPR => 158,
            SyntaxKind::CONDITION => 159,
            SyntaxKind::LOOP_EXPR => 160,
            SyntaxKind::FOR_EXPR => 161,
            SyntaxKind::CONTINUE_EXPR => 162,
            SyntaxKind::BREAK_EXPR => 163,
            SyntaxKind::LABEL => 164,
            SyntaxKind::BLOCK_EXPR => 165,
            SyntaxKind::RETURN_EXPR => 166,
            SyntaxKind::YIELD_EXPR => 167,
            SyntaxKind::MATCH_EXPR => 168,
            SyntaxKind::MATCH_ARM_LIST => 169,
            SyntaxKind::MATCH_ARM => 170,
            SyntaxKind::MATCH_GUARD => 171,
            SyntaxKind::RECORD_EXPR => 172,
            SyntaxKind::RECORD_EXPR_FIELD_LIST => 173,
            SyntaxKind::RECORD_EXPR_FIELD => 174,
            SyntaxKind::EFFECT_EXPR => 175,
            SyntaxKind::BOX_EXPR => 176,
            SyntaxKind::CALL_EXPR => 177,
            SyntaxKind::INDEX_EXPR => 178,
            SyntaxKind::METHOD_CALL_EXPR => 179,
            SyntaxKind::FIELD_EXPR => 180,
            SyntaxKind::AWAIT_EXPR => 181,
            SyntaxKind::TRY_EXPR => 182,
            SyntaxKind::CAST_EXPR => 183,
            SyntaxKind::REF_EXPR => 184,
            SyntaxKind::PREFIX_EXPR => 185,
            SyntaxKind::RANGE_EXPR => 186,
            SyntaxKind::BIN_EXPR => 187,
            SyntaxKind::EXTERN_BLOCK => 188,
            SyntaxKind::EXTERN_ITEM_LIST => 189,
            SyntaxKind::VARIANT => 190,
            SyntaxKind::RECORD_FIELD_LIST => 191,
            SyntaxKind::RECORD_FIELD => 192,
            SyntaxKind::TUPLE_FIELD_LIST => 193,
            SyntaxKind::TUPLE_FIELD => 194,
            SyntaxKind::VARIANT_LIST => 195,
            SyntaxKind::ITEM_LIST => 196,
            SyntaxKind::ASSOC_ITEM_LIST => 197,
            SyntaxKind::ATTR => 198,
            SyntaxKind::META => 199,
            SyntaxKind::USE_TREE => 200,
            SyntaxKind::USE_TREE_LIST => 201,
            SyntaxKind::PATH => 202,
            SyntaxKind::PATH_SEGMENT => 203,
            SyntaxKind::LITERAL => 204,
            SyntaxKind::RENAME => 205,
            SyntaxKind::VISIBILITY => 206,
            SyntaxKind::WHERE_CLAUSE => 207,
            SyntaxKind::WHERE_PRED => 208,
            SyntaxKind::ABI => 209,
            SyntaxKind::NAME => 210,
            SyntaxKind::NAME_REF => 211,
            SyntaxKind::LET_STMT => 212,
            SyntaxKind::EXPR_STMT => 213,
            SyntaxKind::GENERIC_PARAM_LIST => 214,
            SyntaxKind::GENERIC_PARAM => 215,
            SyntaxKind::LIFETIME => 216,
            SyntaxKind::LIFETIME_PARAM => 217,
            SyntaxKind::TYPE_PARAM => 218,
            SyntaxKind::CONST_PARAM => 219,
            SyntaxKind::GENERIC_ARG_LIST => 220,
            SyntaxKind::LIFETIME_ARG => 221,
            SyntaxKind::TYPE_ARG => 222,
            SyntaxKind::ASSOC_TYPE_ARG => 223,
            SyntaxKind::CONST_ARG => 224,
            SyntaxKind::PARAM_LIST => 225,
            SyntaxKind::PARAM => 226,
            SyntaxKind::SELF_PARAM => 227,
            SyntaxKind::ARG_LIST => 228,
            SyntaxKind::TYPE_BOUND => 229,
            SyntaxKind::TYPE_BOUND_LIST => 230,
            SyntaxKind::MACRO_ITEMS => 231,
            SyntaxKind::MACRO_STMTS => 232,
            SyntaxKind::MACRO_DEF => 233,
        }
    }

    /// The kind whose number is `raw`, or `None` where no kind has that number.
    pub fn from_raw(raw: u16) -> (r: Option<SyntaxKind>)
        ensures
            r matches Some(kind) ==> kind.raw() == raw,
            r is None ==> forall|kind: SyntaxKind| #[trigger] kind.raw() != raw,
    {
        match raw {
            0 => Some(SyntaxKind::SEMICOLON),
            1 => Some(SyntaxKind::COMMA),
            2 => Some(SyntaxKind::L_PAREN),
            3 => Some(SyntaxKind::R_PAREN),
            4 => Some(SyntaxKind::L_CURLY),
            5 => Some(SyntaxKind::R_CURLY),
            6 => Some(SyntaxKind::L_BRACK),
            7 => Some(SyntaxKind::R_BRACK),
            8 => Some(SyntaxKind::L_ANGLE),
            9 => Some(SyntaxKind::R_ANGLE),
            10 => Some(SyntaxKind::AT),
            11 => Some(SyntaxKind::POUND),
            12 => Some(SyntaxKind::TILDE),
            13 => Some(SyntaxKind::QUESTION),
            14 => Some(SyntaxKind::DOLLAR),
            15 => Some(SyntaxKind::AMP),
            16 => Some(SyntaxKind::PIPE),
            17 => Some(SyntaxKind::PLUS),
            18 => Some(SyntaxKind::STAR),
            19 => Some(SyntaxKind::SLASH),
            20 => Some(SyntaxKind::CARET),
            21 => Some(SyntaxKind::PERCENT),
            22 => Some(SyntaxKind::UNDERSCORE),
            23 => Some(SyntaxKind::DOT),
            24 => Some(SyntaxKind::DOT2),
            25 => Some(SyntaxKind::DOT3),
            26 => Some(SyntaxKind::DOT2EQ),
            27 => Some(SyntaxKind::COLON),
            28 => Some(SyntaxKind::COLON2),
            29 => Some(SyntaxKind::EQ),
            30 => Some(SyntaxKind::EQ2),
            31 => Some(SyntaxKind::FAT_ARROW),
            32 => Some(SyntaxKind::BANG),
            33 => Some(SyntaxKind::NEQ),
            34 => Some(SyntaxKind::MINUS),
            35 => Some(SyntaxKind::THIN_ARROW),
            36 => Some(SyntaxKind::LTEQ),
            37 => Some(SyntaxKind::GTEQ),
            38 => Some(SyntaxKind::PLUSEQ),
            39 => Some(SyntaxKind::MINUSEQ),
            40 => Some(SyntaxKind::PIPEEQ),
            41 => Some(SyntaxKind::AMPEQ),
            42 => Some(SyntaxKind::CARETEQ),
            43 => Some(SyntaxKind::SLASHEQ),
            44 => Some(SyntaxKind::STAREQ),
            45 => Some(SyntaxKind::PERCENTEQ),
            46 => Some(SyntaxKind::AMP2),
            47 => Some(SyntaxKind::PIPE2),
            48 => Some(SyntaxKind::SHL),
            49 => Some(SyntaxKind::SHR),
            50 => Some(SyntaxKind::SHLEQ),
            51 => Some(SyntaxKind::SHREQ),
            52 => Some(SyntaxKind::AS_KW),
            53 => Some(SyntaxKind::ASYNC_KW),
            54 => Some(SyntaxKind::AWAIT_KW),
            55 => Some(SyntaxKind::BOX_KW),
            56 => Some(SyntaxKind::BREAK_KW),
            57 => Some(SyntaxKind::CONST_KW),
            58 => Some(SyntaxKind::CONTINUE_KW),
            59 => Some(SyntaxKind::CRATE_KW),
            60 => Some(SyntaxKind::DYN_KW),
            61 => Some(SyntaxKind::ELSE_KW),
            62 => Some(SyntaxKind::ENUM_KW),
            63 => Some(SyntaxKind::EXTERN_KW),
            64 => Some(SyntaxKind::FALSE_KW),
            65 => Some(SyntaxKind::FN_KW),
            66 => Some(SyntaxKind::FOR_KW),
            67 => Some(SyntaxKind::IF_KW),
            68 => Some(SyntaxKind::IMPL_KW),
            69 => Some(SyntaxKind::IN_KW),
            70 => Some(SyntaxKind::LET_KW),
            71 => Some(SyntaxKind::LOOP_KW),
            72 => Some(SyntaxKind::MACRO_KW),
            73 => Some(SyntaxKind::MATCH_KW),
            74 => Some(SyntaxKind::MOD_KW),
            75 => Some(SyntaxKind::MOVE_KW),
            76 => Some(SyntaxKind::MUT_KW),
            77 => Some(SyntaxKind::PUB_KW),
            78 => Some(SyntaxKind::REF_KW),
            79 => Some(SyntaxKind::RETURN_KW),
            80 => Some(SyntaxKind::SELF_KW),
            81 => Some(SyntaxKind::STATIC_KW),
            82 => Some(SyntaxKind::STRUCT_KW),
            83 => Some(SyntaxKind::SUPER_KW),
            84 => Some(SyntaxKind::TRAIT_KW),
            85 => Some(SyntaxKind::TRUE_KW),
            86 => Some(SyntaxKind::TRY_KW),
            87 => Some(SyntaxKind::TYPE_KW),
            88 => Some(SyntaxKind::UNSAFE_KW),
            89 => Some(SyntaxKind::USE_KW),
            90 => Some(SyntaxKind::WHERE_KW),
            91 => Some(SyntaxKind::WHILE_KW),
            92 => Some(SyntaxKind::YIELD_KW),
            93 => Some(SyntaxKind::INT_NUMBER),
            94 => Some(SyntaxKind::FLOAT_NUMBER),
            95 => Some(SyntaxKind::CHAR),
            96 => Some(SyntaxKind::BYTE),
            97 => Some(SyntaxKind::STRING),
            98 => Some(SyntaxKind::BYTE_STRING),
            99 => Some(SyntaxKind::ERROR),
            100 => Some(SyntaxKind::IDENT),
            101 => Some(SyntaxKind::WHITESPACE),
            102 => Some(SyntaxKind::LIFETIME_IDENT),
            103 => Some(SyntaxKind::COMMENT),
            104 => Some(SyntaxKind::SHEBANG),
            105 => Some(SyntaxKind::SOURCE_FILE),
            106 => Some(SyntaxKind::STRUCT),
            107 => Some(SyntaxKind::ENUM),
            108 => Some(SyntaxKind::FN),
            109 => Some(SyntaxKind::RET_TYPE),
            110 => Some(SyntaxKind::EXTERN_CRATE),
            111 => Some(SyntaxKind::MODULE),
            112 => Some(SyntaxKind::USE),
            113 => Some(SyntaxKind::STATIC),
            114 => Some(SyntaxKind::CONST),
            115 => Some(SyntaxKind::TRAIT),
            116 => Some(SyntaxKind::IMPL),
            117 => Some(SyntaxKind::TYPE_ALIAS),
            118 => Some(SyntaxKind::MACRO_CALL),
            119 => Some(SyntaxKind::MACRO_RULES),
            120 => Some(SyntaxKind::TOKEN_TREE),
            121 => Some(SyntaxKind::PAREN_TYPE),
            122 => Some(SyntaxKind::TUPLE_TYPE),
            123 => Some(SyntaxKind::NEVER_TYPE),
            124 => Some(SyntaxKind::PATH_TYPE),
            125 => Some(SyntaxKind::PTR_TYPE),
            126 => Some(SyntaxKind::ARRAY_TYPE),
            127 => Some(SyntaxKind::SLICE_TYPE),
            128 => Some(SyntaxKind::REF_TYPE),
            129 => Some(SyntaxKind::INFER_TYPE),
            130 => Some(SyntaxKind::FN_PTR_TYPE),
            131 => Some(SyntaxKind::FOR_TYPE),
            132 => Some(SyntaxKind::IMPL_TRAIT_TYPE),
            133 => Some(SyntaxKind::DYN_TRAIT_TYPE),
            134 => Some(SyntaxKind::OR_PAT),
            135 => Some(SyntaxKind::PAREN_PAT),
            136 => Some(SyntaxKind::REF_PAT),
            137 => Some(SyntaxKind::BOX_PAT),
            138 => Some(SyntaxKind::IDENT_PAT),
            139 => Some(SyntaxKind::WILDCARD_PAT),
            140 => Some(SyntaxKind::REST_PAT),
            141 => Some(SyntaxKind::PATH_PAT),
            142 => Some(SyntaxKind::RECORD_PAT),
            143 => Some(SyntaxKind::RECORD_PAT_FIELD_LIST),
            144 => Some(SyntaxKind::RECORD_PAT_FIELD),
            145 => Some(SyntaxKind::TUPLE_STRUCT_PAT),
            146 => Some(SyntaxKind::TUPLE_PAT),
            147 => Some(SyntaxKind::SLICE_PAT),
            148 => Some(SyntaxKind::RANGE_PAT),
            149 => Some(SyntaxKind::LITERAL_PAT),
            150 => Some(SyntaxKind::MACRO_PAT),
            151 => Some(SyntaxKind::CONST_BLOCK_PAT),
            152 => Some(SyntaxKind::TUPLE_EXPR),
            153 => Some(SyntaxKind::ARRAY_EXPR),
            154 => Some(SyntaxKind::PAREN_EXPR),
            155 => Some(SyntaxKind::PATH_EXPR),
            156 => Some(SyntaxKind::CLOSURE_EXPR),
            157 => Some(SyntaxKind::IF_EXPR),
            158 => Some(SyntaxKind::WHILE_EXPR),
            159 => Some(SyntaxKind::CONDITION),
            160 => Some(SyntaxKind::LOOP_EXPR),
            161 => Some(SyntaxKind::FOR_EXPR),
            162 => Some(SyntaxKind::CONTINUE_EXPR),
            163 => Some(SyntaxKind::BREAK_EXPR),
            164 => Some(SyntaxKind::LABEL),
            165 => Some(SyntaxKind::BLOCK_EXPR),
            166 => Some(SyntaxKind::RETURN_EXPR),
            167 => Some(SyntaxKind::YIELD_EXPR),
            168 => Some(SyntaxKind::MATCH_EXPR),
            169 => Some(SyntaxKind::MATCH_ARM_LIST),
            170 => Some(SyntaxKind::MATCH_ARM),
            171 => Some(SyntaxKind::MATCH_GUARD),
            172 => Some(SyntaxKind::RECORD_EXPR),
            173 => Some(SyntaxKind::RECORD_EXPR_FIELD_LIST),
            174 => Some(SyntaxKind::RECORD_EXPR_FIELD),
            175 => Some(SyntaxKind::EFFECT_EXPR),
            176 => Some(SyntaxKind::BOX_EXPR),
            177 => Some(SyntaxKind::CALL_EXPR),
            178 => Some(SyntaxKind::INDEX_EXPR),
            179 => Some(SyntaxKind::METHOD_CALL_EXPR),
            180 => Some(SyntaxKind::FIELD_EXPR),
            181 => Some(SyntaxKind::AWAIT_EXPR),
            182 => Some(SyntaxKind::TRY_EXPR),
            183 => Some(SyntaxKind::CAST_EXPR),
            184 => Some(SyntaxKind::REF_EXPR),
            185 => Some(SyntaxKind::PREFIX_EXPR),
            186 => Some(SyntaxKind::RANGE_EXPR),
            187 => Some(SyntaxKind::BIN_EXPR),
            188 => Some(SyntaxKind::EXTERN_BLOCK),
            189 => Some(SyntaxKind::EXTERN_ITEM_LIST),
            190 => Some(SyntaxKind::VARIANT),
            191 => Some(SyntaxKind::RECORD_FIELD_LIST),
            192 => Some(SyntaxKind::RECORD_FIELD),
            193 => Some(SyntaxKind::TUPLE_FIELD_LIST),
            194 => Some(SyntaxKind::TUPLE_FIELD),
            195 => Some(SyntaxKind::VARIANT_LIST),
            196 => Some(SyntaxKind::ITEM_LIST),
            197 => Some(SyntaxKind::ASSOC_ITEM_LIST),
            198 => Some(SyntaxKind::ATTR),
            199 => Some(SyntaxKind::META),
            200 => Some(SyntaxKind::USE_TREE),
            201 => Some(SyntaxKind::USE_TREE_LIST),
            202 => Some(SyntaxKind::PATH),
            203 => Some(SyntaxKind::PATH_SEGMENT),
            204 => Some(SyntaxKind::LITERAL),
            205 => Some(SyntaxKind::RENAME),
            206 => Some(SyntaxKind::VISIBILITY),
            207 => Some(SyntaxKind::WHERE_CLAUSE),
            208 => Some(SyntaxKind::WHERE_PRED),
            209 => Some(SyntaxKind::ABI),
            210 => Some(SyntaxKind::NAME),
            211 => Some(SyntaxKind::NAME_REF),
            212 => Some(SyntaxKind::LET_STMT),
            213 => Some(SyntaxKind::EXPR_STMT),
            214 => Some(SyntaxKind::GENERIC_PARAM_LIST),
            215 => Some(SyntaxKind::GENERIC_PARAM),
            216 => Some(SyntaxKind::LIFETIME),
            217 => Some(SyntaxKind::LIFETIME_PARAM),
            218 => Some(SyntaxKind::TYPE_PARAM),
            219 => Some(SyntaxKind::CONST_PARAM),
            220 => Some(SyntaxKind::GENERIC_ARG_LIST),
            221 => Some(SyntaxKind::LIFETIME_ARG),
            222 => Some(SyntaxKind::TYPE_ARG),
            223 => Some(SyntaxKind::ASSOC_TYPE_ARG),
            224 => Some(SyntaxKind::CONST_ARG),
            225 => Some(SyntaxKind::PARAM_LIST),
            226 => Some(SyntaxKind::PARAM),
            227 => Some(SyntaxKind::SELF_PARAM),
            228 => Some(SyntaxKind::ARG_LIST),
            229 => Some(SyntaxKind::TYPE_BOUND),
            230 => Some(SyntaxKind::TYPE_BOUND_LIST),
            231 => Some(SyntaxKind::MACRO_ITEMS),
            232 => Some(SyntaxKind::MACRO_STMTS),
            233 => Some(SyntaxKind::MACRO_DEF),
            _ => None,
        }
    }
}

/// No two kinds share a number.
pub proof fn raw_is_injective(a: SyntaxKind, b: SyntaxKind)
    requires
        a.raw() == b.raw(),
    ensures
        a == b,
{
}

} // verus!
