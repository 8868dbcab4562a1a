//! Errors of the change-instruction grammars.
use vstd::prelude::*;
use crate::text::push_str;

verus! {

/// Which step of a grammar refused the input.
#[derive(Debug, Clone, Copy, PartialEq, Eq, Structural)]
pub enum ErrorCode {
    /// A fixed word or sign was expected.
    Tag,
    /// A run of decimal digits was expected.
    Digit,
    /// At least one space was expected.
    Space,
    /// The end of the input was expected.
    Eof,
    /// A character of a given set was expected.
    IsA,
}

/// Errors of parsing and of the operations on documents.
#[derive(Debug, Clone)]
pub enum ParserError {
    Error(String),
    ParseHeaderError(String),
    ParseNumberError(String),
    IndentQueueTokensError(String),
    /// Token sequences that no grammar recognised.
    TokensParseErrors(Vec<String>),
    TargetDocumentInfo(String),
    ChangesMapFilePath(String),
    OperationError(String),
    /// A grammar refused the input; `input` is the text left where it stopped.
    NomError { input: String, code: ErrorCode },
}

/// The name of an error code.
pub open spec fn code_name(code: ErrorCode) -> Seq<char> {
    match code {
        ErrorCode::Tag => "Tag"@,
        ErrorCode::Digit => "Digit"@,
        ErrorCode::Space => "Space"@,
        ErrorCode::Eof => "Eof"@,
        ErrorCode::IsA => "IsA"@,
    }
}

impl ErrorCode {
    /// The name of this code, as the error message shows it.
    pub fn name(&self) -> (r: String)
        ensures
            r@ == code_name(*self),
    {
        match self {
            ErrorCode::Tag => "Tag".to_owned(),
            ErrorCode::Digit => "Digit".to_owned(),
            ErrorCode::Space => "Space".to_owned(),
            ErrorCode::Eof => "Eof".to_owned(),
            ErrorCode::IsA => "IsA".to_owned(),
        }
    }
}

/// Items of a list of texts, each between back quotes and separated by `, `.
pub open spec fn quoted_list(items: Seq<Seq<char>>) -> Seq<char>
    decreases items.len(),
{
    if items.len() == 0 {
        seq![]
    } else if items.len() == 1 {
        "\""@ + items[0] + "\""@
    } else {
        quoted_list(items.drop_last()) + ", "@ + "\""@ + items.last() + "\""@
    }
}

/// The views of a list of strings.
pub open spec fn string_views(v: Seq<String>) -> Seq<Seq<char>> {
    v.map_values(|s: String| s@)
}

/// The message of an error, as its `Display` writes it.
pub open spec fn error_message(e: ParserError) -> Seq<char> {
    match e {
        ParserError::Error(s) => "Ошибка `"@ + s@ + "`"@,
        ParserError::ParseHeaderError(s) => "Заголовок `"@ + s@ + "` не распознан"@,
        ParserError::ParseNumberError(s) => "Номер `"@ + s@ + "` не распознан"@,
        ParserError::IndentQueueTokensError(s) => "Неправильная последовательность токенов номера абзаца -> "@
            + s@,
        ParserError::TokensParseErrors(v) => "Не распознана последовательность токенов->["@
            + quoted_list(string_views(v@)) + "]"@,
        ParserError::TargetDocumentInfo(s) => "Не обнаружена информация о документе в который необходимо внести изменения->\""@
            + s@ + "\""@,
        ParserError::ChangesMapFilePath(s) => s@,
        ParserError::OperationError(s) => s@,
        ParserError::NomError { input, code } => "nom error: "@ + input@ + " -> "@ + code_name(code),
    }
}

impl ParserError {
    /// The message of this error.
    pub fn message(&self) -> (r: String)
        ensures
            r@ == error_message(*self),
    {
        let mut r = String::new();
        match self {
            ParserError::Error(s) => {
                push_str(&mut r, "Ошибка `");
                push_str(&mut r, s.as_str());
                push_str(&mut r, "`");
            },
            ParserError::ParseHeaderError(s) => {
                push_str(&mut r, "Заголовок `");
                push_str(&mut r, s.as_str());
                push_str(&mut r, "` не распознан");
            },
            ParserError::ParseNumberError(s) => {
                push_str(&mut r, "Номер `");
                push_str(&mut r, s.as_str());
                push_str(&mut r, "` не распознан");
            },
            ParserError::IndentQueueTokensError(s) => {
                push_str(&mut r, "Неправильная последовательность токенов номера абзаца -> ");
                push_str(&mut r, s.as_str());
            },
            ParserError::TokensParseErrors(v) => {
                push_str(&mut r, "Не распознана последовательность токенов->[");
                let mut i: usize = 0;
                let ghost views = string_views(v@);
                while i < v.len()
                    invariant
                        i <= v@.len(),
                        views == string_views(v@),
                        r@ == "Не распознана последовательность токенов->["@ + quoted_list(
                            views.subrange(0, i as int),
                        ),
                    decreases v@.len() - i,
                {
                    let ghost before = r@;
                    if i > 0 {
                        push_str(&mut r, ", ");
                    }
                    push_str(&mut r, "\"");
                    push_str(&mut r, v[i].as_str());
                    push_str(&mut r, "\"");
                    i = i + 1;
                    assert(views.subrange(0, i as int).drop_last() =~= views.subrange(
                        0,
                        i - 1,
                    ));
                    assert(r@ =~= "Не распознана последовательность токенов->["@ + quoted_list(
                        views.subrange(0, i as int),
                    ));
                }
                assert(views.subrange(0, v@.len() as int) =~= views);
                push_str(&mut r, "]");
            },
            ParserError::TargetDocumentInfo(s) => {
                push_str(
                    &mut r,
                    "Не обнаружена информация о документе в который необходимо внести изменения->\"",
                );
                push_str(&mut r, s.as_str());
                push_str(&mut r, "\"");
            },
            ParserError::ChangesMapFilePath(s) => {
                push_str(&mut r, s.as_str());
            },
            ParserError::OperationError(s) => {
                push_str(&mut r, s.as_str());
            },
            ParserError::NomError { input, code } => {
                push_str(&mut r, "nom error: ");
                push_str(&mut r, input.as_str());
                push_str(&mut r, " -> ");
                let n = code.name();
                push_str(&mut r, n.as_str());
            },
        }
        r
    }
}

} // verus!
