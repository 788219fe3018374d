//! Candidates and matching options.
use vstd::prelude::*;

verus! {

/// Kind of a completion candidate, as the language server protocol lists them.
#[derive(Clone, Copy, Debug, PartialEq, Eq, Structural)]
pub enum CompletionItemKind {
    Text,
    Method,
    Function,
    Constructor,
    Field,
    Variable,
    Class,
    Interface,
    Module,
    Property,
    Unit,
    Value,
    Enum,
    Keyword,
    Snippet,
    Color,
    File,
    Reference,
    Folder,
    EnumMember,
    Constant,
    Struct,
    Event,
    Operator,
    TypeParameter,
}

/// The kind whose protocol number is `n`, counting `Text` as 1.
pub open spec fn lsp_kind(n: u32) -> Option<CompletionItemKind> {
    match n {
        1 => Some(CompletionItemKind::Text),
        2 => Some(CompletionItemKind::Method),
        3 => Some(CompletionItemKind::Function),
        4 => Some(CompletionItemKind::Constructor),
        5 => Some(CompletionItemKind::Field),
        6 => Some(CompletionItemKind::Variable),
        7 => Some(CompletionItemKind::Class),
        8 => Some(CompletionItemKind::Interface),
        9 => Some(CompletionItemKind::Module),
        10 => Some(CompletionItemKind::Property),
        11 => Some(CompletionItemKind::Unit),
        12 => Some(CompletionItemKind::Value),
        13 => Some(CompletionItemKind::Enum),
        14 => Some(CompletionItemKind::Keyword),
        15 => Some(CompletionItemKind::Snippet),
        16 => Some(CompletionItemKind::Color),
        17 => Some(CompletionItemKind::File),
        18 => Some(CompletionItemKind::Reference),
        19 => Some(CompletionItemKind::Folder),
        20 => Some(CompletionItemKind::EnumMember),
        21 => Some(CompletionItemKind::Constant),
        22 => Some(CompletionItemKind::Struct),
        23 => Some(CompletionItemKind::Event),
        24 => Some(CompletionItemKind::Operator),
        25 => Some(CompletionItemKind::TypeParameter),
        _ => None,
    }
}

impl CompletionItemKind {
    /// The kind whose protocol number is `n`, counting `Text` as 1.
    pub fn from_lsp(n: u32) -> (r: Option<CompletionItemKind>)
        ensures
            r == lsp_kind(n),
            r is Some <==> 1 <= n <= 25,
    {
        match n {
            1 => Some(CompletionItemKind::Text),
            2 => Some(CompletionItemKind::Method),
            3 => Some(CompletionItemKind::Function),
            4 => Some(CompletionItemKind::Constructor),
            5 => Some(CompletionItemKind::Field),
            6 => Some(CompletionItemKind::Variable),
            7 => Some(CompletionItemKind::Class),
            8 => Some(CompletionItemKind::Interface),
            9 => Some(CompletionItemKind::Module),
            10 => Some(CompletionItemKind::Property),
            11 => Some(CompletionItemKind::Unit),
            12 => Some(CompletionItemKind::Value),
            13 => Some(CompletionItemKind::Enum),
            14 => Some(CompletionItemKind::Keyword),
            15 => Some(CompletionItemKind::Snippet),
            16 => Some(CompletionItemKind::Color),
            17 => Some(CompletionItemKind::File),
            18 => Some(CompletionItemKind::Reference),
            19 => Some(CompletionItemKind::Folder),
            20 => Some(CompletionItemKind::EnumMember),
            21 => Some(CompletionItemKind::Constant),
            22 => Some(CompletionItemKind::Struct),
            23 => Some(CompletionItemKind::Event),
            24 => Some(CompletionItemKind::Operator),
            25 => Some(CompletionItemKind::TypeParameter),
            _ => None,
        }
    }
}

/// A completion candidate.
#[derive(Clone, Debug)]
pub struct LspItem {
    /// Text shown to the user.
    pub label: String,
    /// Text matched instead of the label, where present.
    pub filter_text: Option<String>,
    pub kind: CompletionItemKind,
    /// Bias added to the candidate's score.
    pub score_offset: i32,
}

/// The text a candidate is matched against, before it is bounded in length.
pub open spec fn matchable_text(item: LspItem) -> Seq<char> {
    match item.filter_text {
        Some(f) => f@,
        None => item.label@,
    }
}

/// Options of one matching call. Absent fields have been defaulted by the caller.
#[derive(Clone, Debug)]
pub struct FuzzyOptions {
    /// Whether the needle of a candidate also takes in the text after the cursor.
    pub match_suffix: bool,
    /// Largest number of needle characters that a match may miss.
    pub max_typos: u16,
    pub use_frecency: bool,
    pub use_proximity: bool,
    /// Words found near the cursor.
    pub nearby_words: Option<Vec<String>>,
    /// Bias added to the score of every snippet.
    pub snippet_score_offset: i32,
}

/// Whether `label` is one of the nearby words of `opts`.
pub open spec fn is_nearby(opts: FuzzyOptions, label: Seq<char>) -> bool {
    match opts.nearby_words {
        Some(words) => exists|i: int| 0 <= i < words.len() && (#[trigger] words[i])@ == label,
        None => false,
    }
}

/// Score of a candidate whose text matched with `raw` points, given its usage
/// bonus `frecency`.
pub open spec fn composed_score(item: LspItem, frecency: i32, opts: FuzzyOptions, raw: u16) -> int {
    raw as int + (if opts.use_frecency {
        frecency as int
    } else {
        0
    }) + (if opts.use_proximity && is_nearby(opts, item.label@) {
        2int
    } else {
        0
    }) + item.score_offset as int + (if item.kind == CompletionItemKind::Snippet {
        opts.snippet_score_offset as int
    } else {
        0
    })
}

} // verus!
