use vstd::prelude::*;

verus! {

/// How a token sits next to its neighbours when the token list is written
/// out.
#[derive(Clone, Copy, Debug, PartialEq, Eq, Structural)]
pub enum SpaceType {
    /// One space before the token.
    Normal,
    /// No space before the token.
    NoSpaceBefore,
    /// The token closes a logical line and is indented one level less than
    /// the statement it belongs to.
    StatementEnd,
    /// A line break; how far the next line is indented depends on the token
    /// that follows.
    LineBreak,
    /// Like `Normal`, but a line break before it indents one level more, and
    /// no space follows the token.
    ExtraIndent,
    /// Like `Normal`, but no space follows the token.
    NoRightPad,
    /// No space before the token and a tab after it.
    TabAlignRight,
}

/// A render token: a piece of output text and its spacing directive.
#[derive(Clone, Debug, PartialEq, Eq)]
pub struct PrintInfo {
    pub line: String,
    pub spacing_attribute: SpaceType,
}

/// The mathematical value of a [`PrintInfo`].
pub ghost struct RenderToken {
    pub text: Seq<char>,
    pub spacing: SpaceType,
}

impl View for PrintInfo {
    type V = RenderToken;

    open spec fn view(&self) -> RenderToken {
        RenderToken { text: self.line@, spacing: self.spacing_attribute }
    }
}

impl PrintInfo {
    /// A token from its text and its spacing directive.
    pub fn new(line: String, spacing_attribute: SpaceType) -> (token: Self)
        ensures
            token@ == (RenderToken { text: line@, spacing: spacing_attribute }),
    {
        Self { line, spacing_attribute }
    }
}

/// The token list that a vector of tokens stands for.
pub open spec fn tokens_view(tokens: Seq<PrintInfo>) -> Seq<RenderToken> {
    tokens.map_values(|token: PrintInfo| token@)
}

/// The outcome of a formatter, with the tokens seen as their values.
pub open spec fn tokens_outcome(
    result: Result<Vec<PrintInfo>, crate::error::FormatError>,
) -> Result<Seq<RenderToken>, crate::error::FormatError> {
    match result {
        Ok(tokens) => Ok(tokens_view(tokens@)),
        Err(error) => Err(error),
    }
}

/// The outcome of a function that returns text, with the text seen as a
/// sequence of characters.
pub open spec fn text_outcome(
    result: Result<String, crate::error::FormatError>,
) -> Result<Seq<char>, crate::error::FormatError> {
    match result {
        Ok(text) => Ok(text@),
        Err(error) => Err(error),
    }
}

/// A token with `Normal` spacing.
pub open spec fn normal(text: Seq<char>) -> RenderToken {
    RenderToken { text, spacing: SpaceType::Normal }
}

/// The token that forces a line break.
pub open spec fn line_break() -> RenderToken {
    RenderToken { text: seq!['\n'], spacing: SpaceType::LineBreak }
}

/// The outcome `later`, with `earlier` put in front of its tokens when it
/// succeeded.
pub open spec fn after(
    earlier: Seq<RenderToken>,
    later: Result<Seq<RenderToken>, crate::error::FormatError>,
) -> Result<Seq<RenderToken>, crate::error::FormatError> {
    match later {
        Ok(tokens) => Ok(earlier + tokens),
        Err(error) => Err(error),
    }
}

/// The outcome of two steps in a row: the tokens of the first and then
/// those of the second, or the first error met.
pub open spec fn followed_by(
    here: Result<Seq<RenderToken>, crate::error::FormatError>,
    rest: Result<Seq<RenderToken>, crate::error::FormatError>,
) -> Result<Seq<RenderToken>, crate::error::FormatError> {
    match here {
        Ok(tokens) => after(tokens, rest),
        Err(error) => Err(error),
    }
}

/// Nothing put in front of an outcome leaves it as it is.
pub proof fn lemma_after_nothing(later: Result<Seq<RenderToken>, crate::error::FormatError>)
    ensures
        after(Seq::empty(), later) == later,
{
    if let Ok(tokens) = later {
        assert(Seq::<RenderToken>::empty() + tokens =~= tokens);
    }
}

/// Putting tokens in front of an outcome twice is putting them in front
/// at once, in the same order.
pub proof fn lemma_after_after(
    first: Seq<RenderToken>,
    second: Seq<RenderToken>,
    later: Result<Seq<RenderToken>, crate::error::FormatError>,
)
    ensures
        after(first, after(second, later)) == after(first + second, later),
{
    if let Ok(tokens) = later {
        assert(first + (second + tokens) =~= (first + second) + tokens);
    }
}

/// Adds one token to the end of `list`.
pub(crate) fn push_token(list: &mut Vec<PrintInfo>, line: String, spacing: SpaceType)
    ensures
        tokens_view(final(list)@) == tokens_view(old(list)@).push(
            RenderToken { text: line@, spacing },
        ),
{
    let token = PrintInfo::new(line, spacing);
    list.push(token);
    assert(tokens_view(list@) =~= tokens_view(old(list)@).push(token@));
}

/// Moves the tokens of `more` to the end of `list`.
pub(crate) fn append_tokens(list: &mut Vec<PrintInfo>, more: Vec<PrintInfo>)
    ensures
        tokens_view(final(list)@) == tokens_view(old(list)@) + tokens_view(more@),
{
    let mut more = more;
    let ghost moved = more@;
    list.append(&mut more);
    assert(tokens_view(list@) =~= tokens_view(old(list)@) + tokens_view(moved));
}

/// Copies the tokens of `more` to the end of `list`.
pub(crate) fn extend_tokens(list: &mut Vec<PrintInfo>, more: &Vec<PrintInfo>)
    ensures
        tokens_view(final(list)@) == tokens_view(old(list)@) + tokens_view(more@),
{
    let ghost start = tokens_view(list@);
    let mut at: usize = 0;
    assert(start + tokens_view(more@).subrange(0, 0) =~= start);
    while at < more.len()
        invariant
            at <= more.len(),
            tokens_view(list@) == start + tokens_view(more@).subrange(0, at as int),
        decreases more.len() - at,
    {
        let ghost before = tokens_view(list@);
        push_token(list, more[at].line.clone(), more[at].spacing_attribute);
        assert(before.push(more[at as int]@) =~= start + tokens_view(more@).subrange(
            0,
            at + 1,
        ));
        at += 1;
    }
    assert(tokens_view(more@).subrange(0, more.len() as int) =~= tokens_view(more@));
}

/// Adds the token that forces a line break to the end of `list`.
pub(crate) fn push_line_break(list: &mut Vec<PrintInfo>)
    ensures
        tokens_view(final(list)@) == tokens_view(old(list)@).push(line_break()),
{
    proof {
        reveal_strlit("\n");
        assert("\n"@ =~= seq!['\n']);
    }
    push_token(list, String::from_str("\n"), SpaceType::LineBreak);
}

/// A list of one token.
pub(crate) fn single_token(line: String, spacing: SpaceType) -> (tokens: Vec<PrintInfo>)
    ensures
        tokens_view(tokens@) == seq![RenderToken { text: line@, spacing }],
{
    let mut tokens = Vec::new();
    push_token(&mut tokens, line, spacing);
    assert(tokens_view(tokens@) =~= seq![RenderToken { text: line@, spacing }]);
    tokens
}

} // verus!
