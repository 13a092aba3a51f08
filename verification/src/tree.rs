//! Requirement trees: groups joined by AND or OR over course identifiers,
//! built from the bracketed text that the classifier emits.

use vstd::prelude::*;
use ego_tree::{NodeId, Tree};
use crate::error::BulletinError;
use crate::identifier::{CourseIdentifier, CourseKey, parse_identifier, format_identifier};
use crate::text::{append_chars, from_chars, join, to_chars, trim, trim_chars};

verus! {

/// `ego_tree::Tree`: a tree whose nodes lie in one vector, in the order in
/// which they were made. Nothing is seen inside it; what it holds is named
/// by `tree_arena`.
#[verifier::external_type_specification]
#[verifier::external_body]
#[verifier::reject_recursive_types(T)]
pub struct ExTree<T>(Tree<T>);

/// `ego_tree::NodeId`: the name of a node, which is its place in the vector
/// of its tree. The place is named by `node_index`.
#[verifier::external_type_specification]
#[verifier::external_body]
pub struct ExNodeId(NodeId);

/// What a node of a requirement tree says.
#[derive(Debug)]
pub enum CourseRequirementNode {
    /// Every child is required.
    AND,
    /// One child is enough.
    OR,
    /// This course is required.
    COURSE(CourseIdentifier),
}

/// What a node says, as a mathematical value.
pub enum NodeKind {
    And,
    Or,
    Course(CourseKey),
}

impl View for CourseRequirementNode {
    type V = NodeKind;

    open spec fn view(&self) -> NodeKind {
        match self {
            CourseRequirementNode::AND => NodeKind::And,
            CourseRequirementNode::OR => NodeKind::Or,
            CourseRequirementNode::COURSE(c) => NodeKind::Course(c@),
        }
    }
}

/// One node of the arena that models a tree: what it says, and the
/// positions of its children in the arena, first child first.
pub struct ArenaNode {
    pub kind: NodeKind,
    pub children: Seq<int>,
}

/// The nodes that `t` holds, in the order in which they were made; the root
/// is the first.
pub uninterp spec fn tree_arena(t: Tree<CourseRequirementNode>) -> Seq<ArenaNode>;

/// The position in its tree's arena of the node that `id` names.
pub uninterp spec fn node_index(id: NodeId) -> int;

/// A leaf of the arena.
pub open spec fn leaf(kind: NodeKind) -> ArenaNode {
    ArenaNode { kind, children: Seq::empty() }
}

/// The arena `a` after a node that says `kind` was added as the last child
/// of the node at `parent`.
pub open spec fn arena_append(a: Seq<ArenaNode>, parent: int, kind: NodeKind) -> Seq<ArenaNode> {
    a.update(
        parent,
        ArenaNode { kind: a[parent].kind, children: a[parent].children.push(a.len() as int) },
    ).push(leaf(kind))
}

/// The arena `a` after the node at `at` was made to say `kind`.
pub open spec fn arena_relabel(a: Seq<ArenaNode>, at: int, kind: NodeKind) -> Seq<ArenaNode> {
    a.update(at, ArenaNode { kind, children: a[at].children })
}

/// Calls `Tree::new`: a tree that holds the root alone.
#[verifier::external_body]
fn tree_new(root: CourseRequirementNode) -> (t: Tree<CourseRequirementNode>)
    ensures
        tree_arena(t) == seq![leaf(root@)],
{
    Tree::new(root)
}

/// Calls `Tree::root` and `NodeRef::id`: the root is the first node of the
/// arena.
#[verifier::external_body]
fn tree_root(t: &Tree<CourseRequirementNode>) -> (id: NodeId)
    ensures
        node_index(id) == 0,
{
    t.root().id()
}

/// Calls `Tree::get_mut` and `NodeMut::append`: the new node goes to the end
/// of the arena and to the end of the parent's children; nothing else
/// changes.
#[verifier::external_body]
fn tree_append(
    t: &mut Tree<CourseRequirementNode>,
    parent: NodeId,
    value: CourseRequirementNode,
) -> (id: NodeId)
    requires
        0 <= node_index(parent) < tree_arena(*old(t)).len(),
    ensures
        node_index(id) == tree_arena(*old(t)).len(),
        tree_arena(*final(t)) == arena_append(tree_arena(*old(t)), node_index(parent), value@),
{
    t.get_mut(parent).unwrap().append(value).id()
}

/// Calls `Tree::get_mut` and `NodeMut::value`: the node says the new value,
/// and keeps its children.
#[verifier::external_body]
fn tree_set_value(t: &mut Tree<CourseRequirementNode>, id: NodeId, value: CourseRequirementNode)
    requires
        0 <= node_index(id) < tree_arena(*old(t)).len(),
    ensures
        tree_arena(*final(t)) == arena_relabel(tree_arena(*old(t)), node_index(id), value@),
{
    *t.get_mut(id).unwrap().value() = value;
}

/// Calls `Tree::get` and `NodeRef::value`: what the node says.
#[verifier::external_body]
fn tree_value(t: &Tree<CourseRequirementNode>, id: NodeId) -> (v: &CourseRequirementNode)
    requires
        0 <= node_index(id) < tree_arena(*t).len(),
    ensures
        v@ == tree_arena(*t)[node_index(id)].kind,
{
    t.get(id).unwrap().value()
}

/// Calls `Tree::get` and `NodeRef::children`: the node's children, first
/// child first.
#[verifier::external_body]
fn tree_children(t: &Tree<CourseRequirementNode>, id: NodeId) -> (r: Vec<NodeId>)
    requires
        0 <= node_index(id) < tree_arena(*t).len(),
    ensures
        r@.len() == tree_arena(*t)[node_index(id)].children.len(),
        forall|j: int|
            0 <= j < r@.len() ==> node_index(#[trigger] r@[j]) == tree_arena(
                *t,
            )[node_index(id)].children[j],
{
    t.get(id).unwrap().children().map(|c| c.id()).collect()
}

/// One token of the bracketed requirement text.
#[derive(Debug)]
pub enum RequirementToken {
    /// `(` or `[`: a group opens.
    Open,
    /// `)` or `]`: the open group closes.
    Close,
    /// `|`: the open group is a choice.
    Or,
    /// `&`: the open group is a conjunction.
    And,
    /// What stood between two braces, trimmed.
    Course(Vec<char>),
}

/// A token, as a mathematical value.
pub enum TokenView {
    Open,
    Close,
    Or,
    And,
    Course(Seq<char>),
}

impl View for RequirementToken {
    type V = TokenView;

    open spec fn view(&self) -> TokenView {
        match self {
            RequirementToken::Open => TokenView::Open,
            RequirementToken::Close => TokenView::Close,
            RequirementToken::Or => TokenView::Or,
            RequirementToken::And => TokenView::And,
            RequirementToken::Course(text) => TokenView::Course(text@),
        }
    }
}

/// The views of the tokens of `tokens`.
pub open spec fn token_views(tokens: Seq<RequirementToken>) -> Seq<TokenView> {
    Seq::new(tokens.len(), |i: int| tokens[i]@)
}

/// Where the tokenizer stands: the tokens found, the text of the open brace,
/// and whether a brace is open.
pub struct ScanState {
    pub tokens: Seq<TokenView>,
    pub buffer: Seq<char>,
    pub inside: bool,
}

/// The tokenizer before the first character.
pub open spec fn scan_start() -> ScanState {
    ScanState { tokens: Seq::empty(), buffer: Seq::empty(), inside: false }
}

/// The token that a structural character stands for.
pub open spec fn structural_token(c: char) -> Option<TokenView> {
    if c == '(' || c == '[' {
        Some(TokenView::Open)
    } else if c == ')' || c == ']' {
        Some(TokenView::Close)
    } else if c == '|' {
        Some(TokenView::Or)
    } else if c == '&' {
        Some(TokenView::And)
    } else {
        None
    }
}

/// The tokenizer after one more character, or `None` where that character
/// is a closing brace with no brace open. Inside braces every character but
/// the closing brace is kept; outside them every character that is neither
/// structural nor a brace is passed over.
pub open spec fn scan_step(st: ScanState, c: char) -> Option<ScanState> {
    if st.inside {
        if c == '}' {
            Some(
                ScanState {
                    tokens: st.tokens.push(TokenView::Course(trim(st.buffer))),
                    buffer: Seq::empty(),
                    inside: false,
                },
            )
        } else {
            Some(ScanState { buffer: st.buffer.push(c), ..st })
        }
    } else if c == '{' {
        Some(ScanState { inside: true, ..st })
    } else if c == '}' {
        None
    } else {
        match structural_token(c) {
            Some(t) => Some(ScanState { tokens: st.tokens.push(t), ..st }),
            None => Some(st),
        }
    }
}

/// The tokenizer after the characters of `s`.
pub open spec fn scan(s: Seq<char>) -> Option<ScanState>
    decreases s.len(),
{
    if s.len() == 0 {
        Some(scan_start())
    } else {
        match scan(s.drop_last()) {
            Some(st) => scan_step(st, s.last()),
            None => None,
        }
    }
}

/// The tokens of `s`, or `None` where a closing brace stands in it with no
/// brace open. A brace left open at the end yields no token.
pub open spec fn tokenize_spec(s: Seq<char>) -> Option<Seq<TokenView>> {
    match scan(s) {
        Some(st) => Some(st.tokens),
        None => None,
    }
}

/// Where the builder stands: the arena so far, and the positions of the
/// open groups, the innermost last.
pub struct BuildState {
    pub arena: Seq<ArenaNode>,
    pub stack: Seq<int>,
}

/// The builder before the first token: a root that says AND, open.
pub open spec fn build_start() -> BuildState {
    BuildState { arena: seq![leaf(NodeKind::And)], stack: seq![0int] }
}

/// The builder after one more token. A group opens as a new AND child of the
/// innermost open group. A closing token closes the innermost open group,
/// but never the root. A logic token decides what the innermost open group
/// says. Course text must be an identifier, and becomes a leaf of the
/// innermost open group.
pub open spec fn build_step(st: BuildState, token: TokenView) -> Result<BuildState, BulletinError> {
    let top = st.stack.last();
    match token {
        TokenView::Open => Ok(
            BuildState {
                arena: arena_append(st.arena, top, NodeKind::And),
                stack: st.stack.push(st.arena.len() as int),
            },
        ),
        TokenView::Close => if st.stack.len() > 1 {
            Ok(BuildState { stack: st.stack.drop_last(), ..st })
        } else {
            Ok(st)
        },
        TokenView::Or => Ok(BuildState { arena: arena_relabel(st.arena, top, NodeKind::Or), ..st }),
        TokenView::And => Ok(
            BuildState { arena: arena_relabel(st.arena, top, NodeKind::And), ..st },
        ),
        TokenView::Course(text) => match parse_identifier(text) {
            Some(k) => Ok(
                BuildState { arena: arena_append(st.arena, top, NodeKind::Course(k)), ..st },
            ),
            None => Err(BulletinError::InvalidIdentifier),
        },
    }
}

/// The builder after the tokens of `tokens`, or the failure of the first
/// course text that is no identifier.
pub open spec fn build(tokens: Seq<TokenView>) -> Result<BuildState, BulletinError>
    decreases tokens.len(),
{
    if tokens.len() == 0 {
        Ok(build_start())
    } else {
        match build(tokens.drop_last()) {
            Ok(st) => build_step(st, tokens.last()),
            Err(e) => Err(e),
        }
    }
}

/// The arena of the tree that `tokens` describe.
pub open spec fn build_arena(tokens: Seq<TokenView>) -> Result<Seq<ArenaNode>, BulletinError> {
    match build(tokens) {
        Ok(st) => Ok(st.arena),
        Err(e) => Err(e),
    }
}

/// The arena of the tree that the bracketed text `s` describes.
pub open spec fn parse_tree(s: Seq<char>) -> Result<Seq<ArenaNode>, BulletinError> {
    match tokenize_spec(s) {
        Some(tokens) => build_arena(tokens),
        None => Err(BulletinError::UnmatchedBrace),
    }
}

/// Whether `kind` is AND or OR.
pub open spec fn is_group(kind: NodeKind) -> bool {
    kind is And || kind is Or
}

/// Whether `a` is the arena of a requirement tree: it has a root, the root
/// is a group, every child was made after its parent, and a course has no
/// children.
pub open spec fn arena_wf(a: Seq<ArenaNode>) -> bool {
    &&& a.len() >= 1
    &&& is_group(a[0].kind)
    &&& forall|i: int, j: int|
        0 <= i < a.len() && 0 <= j < a[i].children.len() ==> i < #[trigger] a[i].children[j]
            < a.len()
    &&& forall|i: int|
        0 <= i < a.len() && !is_group(#[trigger] a[i].kind) ==> a[i].children.len() == 0
}

/// Whether the open groups of `st` are groups of its arena, the root the
/// outermost.
pub open spec fn build_wf(st: BuildState) -> bool {
    &&& arena_wf(st.arena)
    &&& st.stack.len() >= 1
    &&& st.stack[0] == 0
    &&& forall|i: int|
        0 <= i < st.stack.len() ==> 0 <= #[trigger] st.stack[i] < st.arena.len() && is_group(
            st.arena[st.stack[i]].kind,
        )
}

/// A step of the builder keeps its state well formed.
pub proof fn lemma_build_step_wf(st: BuildState, token: TokenView)
    requires
        build_wf(st),
        build_step(st, token) is Ok,
    ensures
        build_wf(build_step(st, token)->Ok_0),
{
    let next = build_step(st, token)->Ok_0;
    let top = st.stack.last();
    assert(0 <= top < st.arena.len() && is_group(st.arena[top].kind));
    match token {
        TokenView::Open => {
            lemma_append_wf(st.arena, top, NodeKind::And);
            assert forall|i: int| 0 <= i < next.stack.len() implies 0 <= #[trigger] next.stack[i]
                < next.arena.len() && is_group(next.arena[next.stack[i]].kind) by {
                if i < st.stack.len() {
                    assert(next.stack[i] == st.stack[i]);
                }
            }
        },
        TokenView::Close => {
            if st.stack.len() > 1 {
                assert forall|i: int| 0 <= i < next.stack.len() implies 0
                    <= #[trigger] next.stack[i]
                    < next.arena.len() && is_group(next.arena[next.stack[i]].kind) by {
                    assert(next.stack[i] == st.stack[i]);
                }
            }
        },
        TokenView::Or => {
            lemma_relabel_wf(st, NodeKind::Or);
        },
        TokenView::And => {
            lemma_relabel_wf(st, NodeKind::And);
        },
        TokenView::Course(text) => {
            let k = parse_identifier(text)->Some_0;
            lemma_append_wf(st.arena, top, NodeKind::Course(k));
            assert forall|i: int| 0 <= i < next.stack.len() implies 0 <= #[trigger] next.stack[i]
                < next.arena.len() && is_group(next.arena[next.stack[i]].kind) by {
                assert(next.stack[i] == st.stack[i]);
            }
        },
    }
}

/// A new last child under a group keeps the arena well formed.
pub proof fn lemma_append_wf(a: Seq<ArenaNode>, parent: int, kind: NodeKind)
    requires
        arena_wf(a),
        0 <= parent < a.len(),
        is_group(a[parent].kind),
    ensures
        arena_wf(arena_append(a, parent, kind)),
        arena_append(a, parent, kind).len() == a.len() + 1,
        forall|i: int|
            0 <= i < a.len() ==> (#[trigger] arena_append(a, parent, kind)[i]).kind
                == a[i].kind,
{
    let b = arena_append(a, parent, kind);
    assert forall|i: int, j: int| 0 <= i < b.len() && 0 <= j < b[i].children.len() implies i
        < #[trigger] b[i].children[j] < b.len() by {
        if i == parent {
            if j < a[i].children.len() {
                assert(b[i].children[j] == a[i].children[j]);
            }
        } else if i < a.len() {
            assert(b[i].children[j] == a[i].children[j]);
        }
    }
    assert forall|i: int| 0 <= i < b.len() && !is_group(#[trigger] b[i].kind) implies
        b[i].children.len()
        == 0 by {
        if i < a.len() && i != parent {
            assert(b[i] == a[i]);
        }
    }
}

/// A group that is made to say AND or OR keeps the builder well formed.
pub proof fn lemma_relabel_wf(st: BuildState, kind: NodeKind)
    requires
        build_wf(st),
        is_group(kind),
    ensures
        build_wf(BuildState { arena: arena_relabel(st.arena, st.stack.last(), kind), ..st }),
{
    let a = st.arena;
    let top = st.stack.last();
    let b = arena_relabel(a, top, kind);
    assert(0 <= top < a.len());
    assert forall|i: int, j: int| 0 <= i < b.len() && 0 <= j < b[i].children.len() implies i
        < #[trigger] b[i].children[j] < b.len() by {
        assert(b[i].children[j] == a[i].children[j]);
    }
    assert forall|i: int| 0 <= i < b.len() && !is_group(#[trigger] b[i].kind) implies
        b[i].children.len()
        == 0 by {
        if i != top {
            assert(b[i] == a[i]);
        }
    }
    assert forall|i: int| 0 <= i < st.stack.len() implies 0 <= #[trigger] st.stack[i] < b.len()
        && is_group(b[st.stack[i]].kind) by {
        if st.stack[i] != top {
            assert(b[st.stack[i]] == a[st.stack[i]]);
        }
    }
}

/// Every state that the builder reaches is well formed.
pub proof fn lemma_build_wf(tokens: Seq<TokenView>)
    requires
        build(tokens) is Ok,
    ensures
        build_wf(build(tokens)->Ok_0),
    decreases tokens.len(),
{
    if tokens.len() == 0 {
        let st = build_start();
        assert(st.arena[0].children.len() == 0);
    } else {
        lemma_build_wf(tokens.drop_last());
        lemma_build_step_wf(build(tokens.drop_last())->Ok_0, tokens.last());
    }
}

/// Once the tokenizer has failed, more characters do not mend it.
pub proof fn lemma_scan_failure_stays(s: Seq<char>, i: int)
    requires
        0 <= i <= s.len(),
        scan(s.subrange(0, i)) is None,
    ensures
        scan(s) is None,
    decreases s.len() - i,
{
    if i == s.len() {
        assert(s.subrange(0, i) =~= s);
    } else {
        assert(s.subrange(0, i + 1).drop_last() =~= s.subrange(0, i));
        lemma_scan_failure_stays(s, i + 1);
    }
}

/// Once the builder has failed, more tokens do not mend it nor change the
/// failure.
pub proof fn lemma_build_failure_stays(tokens: Seq<TokenView>, i: int)
    requires
        0 <= i <= tokens.len(),
        build(tokens.subrange(0, i)) is Err,
    ensures
        build(tokens) == build(tokens.subrange(0, i)),
    decreases tokens.len() - i,
{
    if i == tokens.len() {
        assert(tokens.subrange(0, i) =~= tokens);
    } else {
        assert(tokens.subrange(0, i + 1).drop_last() =~= tokens.subrange(0, i));
        lemma_build_failure_stays(tokens, i + 1);
    }
}

/// The tokens of the bracketed text `s`. Fails exactly where a closing brace
/// stands with no brace open.
pub fn tokenize(s: &Vec<char>) -> (r: Result<Vec<RequirementToken>, BulletinError>)
    ensures
        match tokenize_spec(s@) {
            Some(tokens) => r is Ok && token_views(r->Ok_0@) == tokens,
            None => r is Err && r->Err_0 == BulletinError::UnmatchedBrace,
        },
{
    let mut tokens: Vec<RequirementToken> = Vec::new();
    let mut buffer: Vec<char> = Vec::new();
    let mut inside = false;
    let mut i: usize = 0;
    assert(s@.subrange(0, 0) =~= Seq::<char>::empty());
    assert(token_views(tokens@) =~= Seq::<TokenView>::empty());
    while i < s.len()
        invariant
            i <= s.len(),
            scan(s@.subrange(0, i as int)) == Some(
                ScanState { tokens: token_views(tokens@), buffer: buffer@, inside },
            ),
        decreases s.len() - i,
    {
        let c = s[i];
        let ghost before = token_views(tokens@);
        assert(s@.subrange(0, i + 1).drop_last() =~= s@.subrange(0, i as int));
        if inside {
            if c == '}' {
                let text = trim_chars(&buffer);
                tokens.push(RequirementToken::Course(text));
                buffer = Vec::new();
                inside = false;
                assert(token_views(tokens@) =~= before.push(TokenView::Course(text@)));
            } else {
                buffer.push(c);
            }
        } else if c == '{' {
            inside = true;
        } else if c == '}' {
            proof {
                lemma_scan_failure_stays(s@, i + 1);
            }
            return Err(BulletinError::UnmatchedBrace);
        } else if c == '(' || c == '[' {
            tokens.push(RequirementToken::Open);
            assert(token_views(tokens@) =~= before.push(TokenView::Open));
        } else if c == ')' || c == ']' {
            tokens.push(RequirementToken::Close);
            assert(token_views(tokens@) =~= before.push(TokenView::Close));
        } else if c == '|' {
            tokens.push(RequirementToken::Or);
            assert(token_views(tokens@) =~= before.push(TokenView::Or));
        } else if c == '&' {
            tokens.push(RequirementToken::And);
            assert(token_views(tokens@) =~= before.push(TokenView::And));
        }
        i += 1;
    }
    assert(s@.subrange(0, s.len() as int) =~= s@);
    Ok(tokens)
}

/// The positions that `ids` name.
pub open spec fn node_indices(ids: Seq<NodeId>) -> Seq<int> {
    Seq::new(ids.len(), |i: int| node_index(ids[i]))
}

/// A requirement tree: groups that say AND or OR, with courses as leaves.
/// The root is a group.
pub struct CourseRequirementTree {
    tree: Tree<CourseRequirementNode>,
}

impl CourseRequirementTree {
    #[verifier::type_invariant]
    spec fn wf(&self) -> bool {
        arena_wf(tree_arena(self.tree))
    }

    /// The nodes of the tree, in the order in which they were made.
    pub closed spec fn arena(&self) -> Seq<ArenaNode> {
        tree_arena(self.tree)
    }

    /// Builds the tree that `tokens` describe. Fails exactly where a course
    /// text is no identifier.
    pub fn construct(tokens: &Vec<RequirementToken>) -> (r: Result<
        CourseRequirementTree,
        BulletinError,
    >)
        ensures
            match build_arena(token_views(tokens@)) {
                Ok(a) => r is Ok && r->Ok_0.arena() == a,
                Err(e) => r is Err && r->Err_0 == e,
            },
    {
        let ghost views = token_views(tokens@);
        let mut tree = tree_new(CourseRequirementNode::AND);
        let mut stack: Vec<NodeId> = Vec::new();
        stack.push(tree_root(&tree));
        let mut i: usize = 0;
        assert(views.subrange(0, 0) =~= Seq::<TokenView>::empty());
        assert(node_indices(stack@) =~= seq![0int]);
        while i < tokens.len()
            invariant
                i <= tokens.len(),
                views == token_views(tokens@),
                build(views.subrange(0, i as int)) == Ok::<BuildState, BulletinError>(
                    BuildState { arena: tree_arena(tree), stack: node_indices(stack@) },
                ),
                stack@.len() >= 1,
            decreases tokens.len() - i,
        {
            let ghost st = BuildState { arena: tree_arena(tree), stack: node_indices(stack@) };
            proof {
                lemma_build_wf(views.subrange(0, i as int));
                assert(views.subrange(0, i + 1).drop_last() =~= views.subrange(0, i as int));
                assert(views.subrange(0, i + 1).last() == tokens@[i as int]@);
                assert(st.stack.last() == node_index(stack@[stack@.len() - 1]));
                assert(0 <= st.stack[st.stack.len() - 1] < st.arena.len());
            }
            let top = stack[stack.len() - 1];
            match &tokens[i] {
                RequirementToken::Open => {
                    let id = tree_append(&mut tree, top, CourseRequirementNode::AND);
                    stack.push(id);
                    assert(node_indices(stack@) =~= st.stack.push(st.arena.len() as int));
                },
                RequirementToken::Close => {
                    if stack.len() > 1 {
                        stack.pop();
                        assert(node_indices(stack@) =~= st.stack.drop_last());
                    }
                },
                RequirementToken::Or => {
                    tree_set_value(&mut tree, top, CourseRequirementNode::OR);
                },
                RequirementToken::And => {
                    tree_set_value(&mut tree, top, CourseRequirementNode::AND);
                },
                RequirementToken::Course(text) => {
                    match CourseIdentifier::from_chars(text) {
                        Ok(course) => {
                            let _ = tree_append(
                                &mut tree,
                                top,
                                CourseRequirementNode::COURSE(course),
                            );
                        },
                        Err(e) => {
                            proof {
                                lemma_build_failure_stays(views, i + 1);
                            }
                            return Err(e);
                        },
                    }
                },
            }
            i += 1;
        }
        proof {
            assert(views.subrange(0, tokens.len() as int) =~= views);
            lemma_build_wf(views);
        }
        Ok(CourseRequirementTree { tree })
    }

    /// Reads the bracketed text: structural characters, and course
    /// identifiers in braces. Fails with `UnmatchedBrace` exactly where a
    /// closing brace stands with no brace open, and else with
    /// `InvalidIdentifier` exactly where the text of a brace is no identifier.
    pub fn try_from(requirements_string: &str) -> (r: Result<CourseRequirementTree, BulletinError>)
        ensures
            match parse_tree(requirements_string@) {
                Ok(a) => r is Ok && r->Ok_0.arena() == a,
                Err(e) => r is Err && r->Err_0 == e,
            },
    {
        let chars = to_chars(requirements_string);
        CourseRequirementTree::from_chars(&chars)
    }

    /// Reads the bracketed text from characters.
    pub fn from_chars(text: &Vec<char>) -> (r: Result<CourseRequirementTree, BulletinError>)
        ensures
            match parse_tree(text@) {
                Ok(a) => r is Ok && r->Ok_0.arena() == a,
                Err(e) => r is Err && r->Err_0 == e,
            },
    {
        match tokenize(text) {
            Ok(tokens) => CourseRequirementTree::construct(&tokens),
            Err(e) => Err(e),
        }
    }
}

/// The text between the parts of a conjunction.
pub open spec fn and_separator() -> Seq<char> {
    seq![' ', 'A', 'N', 'D', ' ']
}

/// The text between the parts of a choice.
pub open spec fn or_separator() -> Seq<char> {
    seq![' ', 'O', 'R', ' ']
}

/// `text` as it stands where `bare` holds, and else between the two
/// brackets.
pub open spec fn enclose(text: Seq<char>, open: char, close: char, bare: bool) -> Seq<char> {
    if bare {
        text
    } else {
        seq![open] + text + seq![close]
    }
}

/// The renderings of the first `n` children of the node at `at`, without
/// those that are empty.
pub open spec fn rendered_parts(a: Seq<ArenaNode>, at: int, n: nat) -> Seq<Seq<char>>
    decreases a.len() - at, n,
{
    if n == 0 || !(0 <= at < a.len()) || n > a[at].children.len() {
        Seq::empty()
    } else {
        let before = rendered_parts(a, at, (n - 1) as nat);
        let child = a[at].children[n - 1];
        let part = if at < child < a.len() {
            render_node(a, child, false)
        } else {
            Seq::empty()
        };
        if part.len() == 0 {
            before
        } else {
            before.push(part)
        }
    }
}

/// The rendering of the node at `at`. A course is its canonical text. A
/// group is the renderings of its children that are not empty, joined by
/// ` AND ` or ` OR `; it stands in brackets, square for AND and round for OR,
/// where it is not the root and has two such children or more.
pub open spec fn render_node(a: Seq<ArenaNode>, at: int, is_root: bool) -> Seq<char>
    decreases a.len() - at,
        (if 0 <= at < a.len() {
            a[at].children.len() + 1
        } else {
            0
        }),
{
    if !(0 <= at < a.len()) {
        Seq::empty()
    } else {
        let parts = rendered_parts(a, at, a[at].children.len());
        match a[at].kind {
            NodeKind::Course(k) => format_identifier(k),
            NodeKind::And => enclose(
                join(parts, and_separator()),
                '[',
                ']',
                is_root || parts.len() < 2,
            ),
            NodeKind::Or => enclose(
                join(parts, or_separator()),
                '(',
                ')',
                is_root || parts.len() < 2,
            ),
        }
    }
}

/// The text of a tree: the rendering of its root, which is never put in
/// brackets.
pub open spec fn render(a: Seq<ArenaNode>) -> Seq<char> {
    render_node(a, 0, true)
}

impl CourseRequirementTree {
    /// The rendering of the node that `id` names.
    fn render_at(&self, id: NodeId, is_root: bool) -> (r: Vec<char>)
        requires
            0 <= node_index(id) < self.arena().len(),
        ensures
            r@ == render_node(self.arena(), node_index(id), is_root),
        decreases self.arena().len() - node_index(id),
    {
        proof {
            use_type_invariant(self);
        }
        let ghost a = self.arena();
        let ghost at = node_index(id);
        let is_or = match tree_value(&self.tree, id) {
            CourseRequirementNode::COURSE(course) => {
                return course.to_chars();
            },
            CourseRequirementNode::AND => false,
            CourseRequirementNode::OR => true,
        };
        let children = tree_children(&self.tree, id);
        let mut joined: Vec<char> = Vec::new();
        let mut count: usize = 0;
        let mut j: usize = 0;
        let ghost separator = if is_or {
            or_separator()
        } else {
            and_separator()
        };
        while j < children.len()
            invariant
                j <= children.len(),
                a == self.arena(),
                a == tree_arena(self.tree),
                arena_wf(a),
                at == node_index(id),
                0 <= at < a.len(),
                children@.len() == a[at].children.len(),
                forall|k: int|
                    0 <= k < children@.len() ==> node_index(#[trigger] children@[k])
                        == a[at].children[k],
                separator == if is_or {
                    or_separator()
                } else {
                    and_separator()
                },
                count == rendered_parts(a, at, j as nat).len(),
                count <= j,
                joined@ == join(rendered_parts(a, at, j as nat), separator),
            decreases children.len() - j,
        {
            let child = children[j];
            assert(at < a[at].children[j as int] < a.len());
            let part = self.render_at(child, false);
            let ghost before = rendered_parts(a, at, j as nat);
            if part.len() > 0 {
                assert(rendered_parts(a, at, (j + 1) as nat) == before.push(part@));
                assert(before.push(part@).drop_last() =~= before);
                if count > 0 {
                    if is_or {
                        joined.push(' ');
                        joined.push('O');
                        joined.push('R');
                        joined.push(' ');
                    } else {
                        joined.push(' ');
                        joined.push('A');
                        joined.push('N');
                        joined.push('D');
                        joined.push(' ');
                    }
                    append_chars(&mut joined, &part);
                    assert(joined@ =~= join(before, separator) + separator + part@);
                } else {
                    append_chars(&mut joined, &part);
                    assert(joined@ =~= part@);
                }
                count += 1;
            } else {
                assert(rendered_parts(a, at, (j + 1) as nat) == before);
            }
            j += 1;
        }
        if is_root || count < 2 {
            joined
        } else {
            let mut r: Vec<char> = Vec::new();
            r.push(if is_or {
                '('
            } else {
                '['
            });
            append_chars(&mut r, &joined);
            r.push(if is_or {
                ')'
            } else {
                ']'
            });
            assert(r@ =~= render_node(a, at, is_root));
            r
        }
    }

    /// The tree as a boolean expression, for display.
    pub fn to_string(&self) -> (r: String)
        ensures
            r@ == render(self.arena()),
    {
        proof {
            use_type_invariant(self);
        }
        let root = tree_root(&self.tree);
        let chars = self.render_at(root, true);
        from_chars(&chars)
    }
}

impl Clone for CourseRequirementNode {
    fn clone(&self) -> (r: CourseRequirementNode)
        ensures
            r@ == self@,
    {
        match self {
            CourseRequirementNode::AND => CourseRequirementNode::AND,
            CourseRequirementNode::OR => CourseRequirementNode::OR,
            CourseRequirementNode::COURSE(course) => CourseRequirementNode::COURSE(course.clone()),
        }
    }
}

/// One row of a tree laid out flat: what the node says, and the row of its
/// parent, which the root has not.
#[derive(Debug)]
pub struct RequirementRow {
    pub node: CourseRequirementNode,
    pub parent: Option<usize>,
}

/// A row, as a mathematical value.
pub struct RowView {
    pub kind: NodeKind,
    pub parent: Option<int>,
}

impl View for RequirementRow {
    type V = RowView;

    open spec fn view(&self) -> RowView {
        RowView {
            kind: self.node@,
            parent: match self.parent {
                Some(p) => Some(p as int),
                None => None,
            },
        }
    }
}

/// The views of the rows of `rows`.
pub open spec fn row_views(rows: Seq<RequirementRow>) -> Seq<RowView> {
    Seq::new(rows.len(), |i: int| rows[i]@)
}

/// The rows of the subtrees of the first `n` children of the node at `at`,
/// in pre-order, where the row of that node is the row `own` and the rows
/// begin at `own + 1`.
pub open spec fn children_rows(a: Seq<ArenaNode>, at: int, n: nat, own: int) -> Seq<RowView>
    decreases a.len() - at, n,
{
    if n == 0 || !(0 <= at < a.len()) || n > a[at].children.len() {
        Seq::empty()
    } else {
        let before = children_rows(a, at, (n - 1) as nat, own);
        let child = a[at].children[n - 1];
        if at < child < a.len() {
            before + subtree_rows(a, child, Some(own), own + 1 + before.len())
        } else {
            before
        }
    }
}

/// The rows of the subtree at `at` in pre-order: the node's own row, which
/// is the row `own` and names `parent`, then the rows of its children's
/// subtrees, first child first.
pub open spec fn subtree_rows(a: Seq<ArenaNode>, at: int, parent: Option<int>, own: int) -> Seq<
    RowView,
>
    decreases a.len() - at,
        (if 0 <= at < a.len() {
            a[at].children.len() + 1
        } else {
            0
        }),
{
    if !(0 <= at < a.len()) {
        Seq::empty()
    } else {
        seq![RowView { kind: a[at].kind, parent }] + children_rows(
            a,
            at,
            a[at].children.len(),
            own,
        )
    }
}

/// The rows of a whole tree in pre-order, the root first.
pub open spec fn preorder(a: Seq<ArenaNode>) -> Seq<RowView> {
    subtree_rows(a, 0, None, 0)
}

impl CourseRequirementTree {
    /// Appends the rows of the subtree that `id` names.
    fn push_rows(&self, id: NodeId, parent: Option<usize>, rows: &mut Vec<RequirementRow>)
        requires
            0 <= node_index(id) < self.arena().len(),
        ensures
            row_views(final(rows)@) == row_views(old(rows)@) + subtree_rows(
                self.arena(),
                node_index(id),
                match parent {
                    Some(p) => Some(p as int),
                    None => None,
                },
                old(rows)@.len() as int,
            ),
        decreases self.arena().len() - node_index(id),
    {
        proof {
            use_type_invariant(self);
        }
        let ghost a = self.arena();
        let ghost at = node_index(id);
        let ghost start = row_views(rows@);
        let own: usize = rows.len();
        let node = tree_value(&self.tree, id).clone();
        let ghost head = RowView {
            kind: a[at].kind,
            parent: match parent {
                Some(p) => Some(p as int),
                None => None,
            },
        };
        rows.push(RequirementRow { node, parent });
        assert(row_views(rows@) =~= start + seq![head]);
        let children = tree_children(&self.tree, id);
        let mut j: usize = 0;
        while j < children.len()
            invariant
                j <= children.len(),
                a == self.arena(),
                a == tree_arena(self.tree),
                arena_wf(a),
                at == node_index(id),
                0 <= at < a.len(),
                own == start.len(),
                children@.len() == a[at].children.len(),
                forall|k: int|
                    0 <= k < children@.len() ==> node_index(#[trigger] children@[k])
                        == a[at].children[k],
                row_views(rows@) == start + seq![head] + children_rows(a, at, j as nat, own as int),
            decreases children.len() - j,
        {
            let child = children[j];
            assert(at < a[at].children[j as int] < a.len());
            let ghost before = children_rows(a, at, j as nat, own as int);
            assert(rows@.len() == row_views(rows@).len());
            assert(rows@.len() == own + 1 + before.len());
            self.push_rows(child, Some(own), rows);
            assert(row_views(rows@) =~= start + seq![head] + children_rows(
                a,
                at,
                (j + 1) as nat,
                own as int,
            ));
            j += 1;
        }
        assert(row_views(rows@) =~= start + subtree_rows(a, at, head.parent, own as int));
    }

    /// The tree laid out flat in pre-order: the root's row first, then for
    /// each child in order the rows of its subtree, each row naming the row
    /// of its parent.
    pub fn rows(&self) -> (r: Vec<RequirementRow>)
        ensures
            row_views(r@) == preorder(self.arena()),
    {
        proof {
            use_type_invariant(self);
        }
        let mut rows: Vec<RequirementRow> = Vec::new();
        let root = tree_root(&self.tree);
        assert(row_views(rows@) =~= Seq::<RowView>::empty());
        self.push_rows(root, None, &mut rows);
        assert(row_views(rows@) =~= preorder(self.arena()));
        rows
    }
}

/// A closing brace that stands where no brace is open makes the whole text
/// fail with `UnmatchedBrace`: no tree comes of it, whatever stands before
/// and behind.
pub proof fn lemma_unmatched_brace(s: Seq<char>, i: int)
    requires
        0 <= i < s.len(),
        s[i] == '}',
        scan(s.subrange(0, i)) is Some ==> !scan(s.subrange(0, i))->Some_0.inside,
    ensures
        parse_tree(s) == Err::<Seq<ArenaNode>, BulletinError>(BulletinError::UnmatchedBrace),
{
    assert(s.subrange(0, i + 1).drop_last() =~= s.subrange(0, i));
    lemma_scan_failure_stays(s, i + 1);
}

} // verus!
