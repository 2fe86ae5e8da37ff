use vstd::prelude::*;

verus! {

/// What a fragment of source text was classified as.
#[derive(Clone, Copy, Debug, PartialEq, Eq, Hash, Structural)]
pub enum FragmentKind {
    Program,
    Statement,
    Comment,
    Whitespace,
    Newline,
    Include,
    EndOfInput,
    Keyword,
    NotKeyword,
    Logical,
    Properties,
    TemptableKeyword,
    Variable,
    Operator,
    LeftParenthesis,
    RightParenthesis,
    LeftSquareBracket,
    RightSquareBracket,
    Comma,
    LoopLabel,
    BlockBegin,
    BlockEnd,
    StatementEnd,
    ConditionalExpression,
    ConditionalExpressionPred,
    Expression,
    ByExpression,
    ByKeyword,
    Datatype,
    ArrayData,
    StringLiteral,
    Accumulate,
    AccumulateKeyword,
    AggregatePhrase,
    Function,
    FunctionContent,
    FunctionDeclaration,
    FunctionKeyword,
    ForwardMarker,
    AssignStatement,
    AssignKeyword,
    InputKeyword,
    FramebrowseKeyword,
    NoerrorKeyword,
    AssignLines,
    AssignLine,
    Equals,
    WhenKeyword,
    DefineTempTable,
    DefineKeyword,
    TempTableLike,
    LikeKeyword,
    TempTableFields,
    TempTableField,
    FieldKeyword,
    AslikeKeyword,
    /// Any kind that no rule of the renderer names.
    Other,
}

/// A node of the parse tree: its kind, the source text it spans and the
/// fragments inside it, in source order.
#[derive(Debug, PartialEq, Eq)]
pub struct Fragment {
    pub kind: FragmentKind,
    pub text: String,
    pub children: Vec<Fragment>,
}

/// The mathematical value of a [`Fragment`].
pub ghost struct FragmentView {
    pub kind: FragmentKind,
    pub text: Seq<char>,
    pub children: Seq<FragmentView>,
}

/// The view of a fragment: its kind, its text as a sequence of characters
/// and the views of its children.
pub open spec fn fragment_view(fragment: Fragment) -> FragmentView
    decreases fragment,
{
    FragmentView {
        kind: fragment.kind,
        text: fragment.text@,
        children: fragment_views(fragment.children@),
    }
}

/// The views of a sequence of fragments, one for one.
pub open spec fn fragment_views(fragments: Seq<Fragment>) -> Seq<FragmentView>
    decreases fragments,
{
    if fragments.len() == 0 {
        Seq::empty()
    } else {
        fragment_views(fragments.drop_last()).push(fragment_view(fragments.last()))
    }
}

impl View for Fragment {
    type V = FragmentView;

    open spec fn view(&self) -> FragmentView {
        fragment_view(*self)
    }
}

/// The views of a sequence of fragments are as many as the fragments, and
/// each is the view of the fragment at its position.
pub proof fn lemma_fragment_views(fragments: Seq<Fragment>)
    ensures
        fragment_views(fragments).len() == fragments.len(),
        forall|i: int|
            0 <= i < fragments.len() ==> #[trigger] fragment_views(fragments)[i] == fragments[i]@,
    decreases fragments.len(),
{
    if fragments.len() > 0 {
        lemma_fragment_views(fragments.drop_last());
    }
}

/// The view of a fragment has the fragment's kind and text, and the views of
/// its children as children.
pub proof fn lemma_fragment_view(fragment: &Fragment)
    ensures
        fragment@.kind == fragment.kind,
        fragment@.text == fragment.text@,
        fragment@.children == fragment_views(fragment.children@),
        fragment@.children.len() == fragment.children@.len(),
        forall|i: int|
            0 <= i < fragment.children@.len() ==> #[trigger] fragment@.children[i]
                == fragment.children@[i]@,
{
    lemma_fragment_views(fragment.children@);
}

impl Fragment {
    /// A fragment from its kind, its text and its children.
    pub fn new(kind: FragmentKind, text: String, children: Vec<Fragment>) -> (fragment: Self)
        ensures
            fragment@.kind == kind,
            fragment@.text == text@,
            fragment@.children == fragment_views(children@),
    {
        Self { kind, text, children }
    }

    /// A fragment without children.
    pub fn leaf(kind: FragmentKind, text: &str) -> (fragment: Self)
        ensures
            fragment@ == (FragmentView { kind, text: text@, children: Seq::empty() }),
    {
        Self { kind, text: String::from_str(text), children: Vec::new() }
    }
}

} // verus!
