//! The tree of command-line commands of the client: adding commands,
//! resolving user input to the command that handles it, and the help
//! text of a command.
use vstd::prelude::*;
use vstd::string::*;

use crate::failure::{Failure, FailureType};
use crate::text::{views, split_spaces, split_spaces_spec, join, join_spec, ends_with, ends_with_spec, contains_char, lemma_rest_of_input};

verus! {

/// How a command takes the input that follows it.
#[derive(Debug, Clone, Copy, PartialEq, Eq, Structural)]
pub enum CommandCallType {
    NoArgs,
    Args,
    NotCallable,
}

/// The abstract value of a node: every string by its characters.
pub struct NodeView<H> {
    pub name: Seq<char>,
    pub aliases: Seq<Seq<char>>,
    pub help: Seq<char>,
    pub children: Seq<Seq<char>>,
    pub parent: Seq<char>,
    pub handler: Option<H>,
    pub call_type: CommandCallType,
}

/// One command of the tree. `name` is the key by which the tree knows it,
/// `valid_aliases` the words that select it in user input, `children`
/// the names of its subcommands and `parent` the name of its parent.
pub struct CommandSpecNode<H> {
    name: String,
    valid_aliases: Vec<String>,
    help: String,
    children: Vec<String>,
    parent: String,
    handler: Option<H>,
    call_type: CommandCallType,
}

/// A tree of commands; `H` is the type of the handlers the commands carry.
pub struct CommandSpec<H> {
    nodes: Vec<CommandSpecNode<H>>,
}

/// What a call resolved to: help text to show, or a handler to run with
/// the given arguments (`None` when the resolved command has no handler).
pub enum CallOutcome<H> {
    ShowHelp(String),
    Run(Option<H>, String),
}

/// The abstract result of a call.
pub enum CallResult<H> {
    Help(Seq<char>),
    Run(Option<H>, Seq<char>),
    Fail(FailureType, Seq<char>, Seq<char>),
    /// The input makes the command tree slice its input out of range.
    OutOfRange,
}

impl<H> View for CommandSpecNode<H> {
    type V = NodeView<H>;

    closed spec fn view(&self) -> NodeView<H> {
        NodeView {
            name: self.name@,
            aliases: views(self.valid_aliases@),
            help: self.help@,
            children: views(self.children@),
            parent: self.parent@,
            handler: self.handler,
            call_type: self.call_type,
        }
    }
}

impl<H> View for CommandSpec<H> {
    type V = Seq<NodeView<H>>;

    closed spec fn view(&self) -> Seq<NodeView<H>> {
        self.nodes@.map_values(|n: CommandSpecNode<H>| n@)
    }
}

/// The two words that ask for help.
pub open spec fn help_aliases() -> Seq<Seq<char>> {
    seq!["help"@, "h"@]
}

/// Some node is named `name`.
pub open spec fn has_node<H>(nodes: Seq<NodeView<H>>, name: Seq<char>) -> bool {
    exists|i: int| 0 <= i < nodes.len() && #[trigger] nodes[i].name == name
}

/// The position of the node named `name`.
pub open spec fn index_of<H>(nodes: Seq<NodeView<H>>, name: Seq<char>) -> int {
    choose|i: int| 0 <= i < nodes.len() && #[trigger] nodes[i].name == name
}

/// The first alias of a node, or the empty word for a node without one.
pub open spec fn first_alias<H>(n: NodeView<H>) -> Seq<char> {
    if n.aliases.len() > 0 {
        n.aliases[0]
    } else {
        Seq::<char>::empty()
    }
}

/// The well-formedness of a command tree: the root comes first, names are
/// unique, every other node has an alias and a parent that comes before it,
/// and every child exists, comes after its parent and names it as parent.
pub open spec fn tree_wf<H>(nodes: Seq<NodeView<H>>) -> bool {
    &&& nodes.len() >= 1
    &&& nodes[0].name == "root"@
    &&& nodes[0].parent == "root"@
    &&& nodes[0].aliases.len() == 0
    &&& names_unique(nodes)
    &&& forall|i: int|
        0 < i < nodes.len() ==> {
            &&& (#[trigger] nodes[i]).aliases.len() > 0
            &&& has_node(nodes, nodes[i].parent)
            &&& index_of(nodes, nodes[i].parent) < i
        }
    &&& forall|i: int, k: int|
        0 <= i < nodes.len() && 0 <= k < nodes[i].children.len() ==> {
            &&& has_node(nodes, #[trigger] nodes[i].children[k])
            &&& index_of(nodes, nodes[i].children[k]) > i
            &&& nodes[index_of(nodes, nodes[i].children[k])].parent == nodes[i].name
        }
}

/// The parent position of the node at `i`.
pub open spec fn parent_index<H>(nodes: Seq<NodeView<H>>, i: int) -> int {
    index_of(nodes, nodes[i].parent)
}

/// No two nodes share a name.
pub open spec fn names_unique<H>(nodes: Seq<NodeView<H>>) -> bool {
    forall|i: int, j: int|
        0 <= i < nodes.len() && 0 <= j < nodes.len() && #[trigger] nodes[i].name
            == #[trigger] nodes[j].name ==> i == j
}

proof fn lemma_index_of<H>(nodes: Seq<NodeView<H>>, name: Seq<char>, i: int)
    requires
        names_unique(nodes),
        0 <= i < nodes.len(),
        nodes[i].name == name,
    ensures
        has_node(nodes, name),
        index_of(nodes, name) == i,
{
    assert(has_node(nodes, name));
    let j = index_of(nodes, name);
    assert(nodes[j].name == nodes[i].name);
}

proof fn lemma_root_parent<H>(nodes: Seq<NodeView<H>>)
    requires
        tree_wf(nodes),
    ensures
        parent_index(nodes, 0) == 0,
        index_of(nodes, "root"@) == 0,
{
    lemma_index_of(nodes, "root"@, 0);
}

/// `n` is the node of the tree that bears its name.
pub open spec fn node_of<H>(nodes: Seq<NodeView<H>>, n: NodeView<H>) -> bool {
    has_node(nodes, n.name) && nodes[index_of(nodes, n.name)] == n
}

/// The words put before a command in its help line, when the walk up the
/// tree starts at `cur`: the first alias of each node met on the way to the
/// root (the root excluded), outermost first, each followed by a space.
pub open spec fn path_prefix<H>(nodes: Seq<NodeView<H>>, cur: int) -> Seq<char>
    decreases cur,
{
    if cur <= 0 || cur >= nodes.len() {
        Seq::<char>::empty()
    } else {
        let p = parent_index(nodes, cur);
        if 0 <= p < cur {
            path_prefix(nodes, p) + first_alias(nodes[cur]) + " "@
        } else {
            Seq::<char>::empty()
        }
    }
}

/// The line that names a command: prefix, aliases joined by `" | "`, then
/// the help string.
pub open spec fn help_line<H>(prefix: Seq<char>, n: NodeView<H>) -> Seq<char> {
    prefix + " "@ + join_spec(n.aliases, " | "@) + n.help + "\n"@
}

/// The help text of the node at `i`, descending `layers` levels into its
/// subcommands; at the last level a command with subcommands gets a line
/// that points to its own help.
pub open spec fn help_text<H>(nodes: Seq<NodeView<H>>, i: int, layers: nat) -> Seq<char>
    decreases layers, 0nat, 0nat,
{
    let n = nodes[i];
    let prefix = path_prefix(nodes, parent_index(nodes, i));
    let line = help_line(prefix, n);
    if layers > 0 {
        line + children_help(nodes, n.children, 0, (layers - 1) as nat)
    } else if n.children.len() > 0 {
        line + prefix + " "@ + join_spec(n.aliases, " | "@)
            + " <args> | help (for more information on this command and its subcommands)\n"@
    } else {
        line
    }
}

/// The help texts of the children from position `k` on, in order.
pub open spec fn children_help<H>(
    nodes: Seq<NodeView<H>>,
    children: Seq<Seq<char>>,
    k: int,
    layers: nat,
) -> Seq<char>
    decreases layers, 1nat, (if k < 0 { 0 } else { children.len() - k }) as nat,
{
    if k < 0 || k >= children.len() {
        Seq::<char>::empty()
    } else {
        help_text(nodes, index_of(nodes, children[k]), layers) + children_help(
            nodes,
            children,
            k + 1,
            layers,
        )
    }
}

/// The help texts of the first `k` children, in order.
pub open spec fn children_prefix<H>(
    nodes: Seq<NodeView<H>>,
    children: Seq<Seq<char>>,
    k: int,
    layers: nat,
) -> Seq<char>
    decreases k,
{
    if k <= 0 || k > children.len() {
        Seq::<char>::empty()
    } else {
        children_prefix(nodes, children, k - 1, layers) + help_text(
            nodes,
            index_of(nodes, children[k - 1]),
            layers,
        )
    }
}

proof fn lemma_children_split<H>(
    nodes: Seq<NodeView<H>>,
    children: Seq<Seq<char>>,
    k: int,
    layers: nat,
)
    requires
        0 <= k <= children.len(),
    ensures
        children_help(nodes, children, 0, layers) == children_prefix(nodes, children, k, layers)
            + children_help(nodes, children, k, layers),
    decreases k,
{
    if k > 0 {
        lemma_children_split(nodes, children, k - 1, layers);
        assert(children_help(nodes, children, k - 1, layers) == help_text(
            nodes,
            index_of(nodes, children[k - 1]),
            layers,
        ) + children_help(nodes, children, k, layers));
        assert(children_prefix(nodes, children, k, layers) == children_prefix(nodes, children, k - 1, layers) + help_text(
            nodes,
            index_of(nodes, children[k - 1]),
            layers,
        ));
        assert(children_help(nodes, children, 0, layers) =~= children_prefix(nodes, children, k, layers)
            + children_help(nodes, children, k, layers));
    } else {
        assert(children_prefix(nodes, children, 0, layers) =~= Seq::<char>::empty());
    }
}

proof fn lemma_children_prefix_full<H>(
    nodes: Seq<NodeView<H>>,
    children: Seq<Seq<char>>,
    layers: nat,
)
    ensures
        children_help(nodes, children, 0, layers) == children_prefix(
            nodes,
            children,
            children.len() as int,
            layers,
        ),
{
    lemma_children_split(nodes, children, children.len() as int, layers);
    assert(children_help(nodes, children, children.len() as int, layers) =~= Seq::<char>::empty());
    assert(children_prefix(nodes, children, children.len() as int, layers) + Seq::<char>::empty() =~= children_prefix(nodes, children, children.len() as int, layers));
}

/// The word of the input at `position`, or the empty word past its end.
pub open spec fn input_at(input: Seq<Seq<char>>, position: int) -> Seq<char> {
    if 0 <= position < input.len() {
        input[position]
    } else {
        Seq::<char>::empty()
    }
}

/// The position of the first child, from position `k` on, that has the
/// alias `word`.
pub open spec fn matching_child<H>(
    nodes: Seq<NodeView<H>>,
    children: Seq<Seq<char>>,
    k: int,
    word: Seq<char>,
) -> Option<int>
    decreases (if k < 0 { 0 } else { children.len() - k }) as nat,
{
    if k < 0 || k >= children.len() {
        None
    } else if nodes[index_of(nodes, children[k])].aliases.contains(word) {
        Some(k)
    } else {
        matching_child(nodes, children, k + 1, word)
    }
}

/// The input words before `position`, joined with spaces.
pub open spec fn words_before(input: Seq<Seq<char>>, position: int) -> Seq<char> {
    join_spec(input.subrange(0, position), " "@)
}

/// The input words from `position` on, joined with spaces.
pub open spec fn words_from(input: Seq<Seq<char>>, position: int) -> Seq<char> {
    join_spec(input.subrange(position, input.len() as int), " "@)
}

/// What a command does with the input that remains after it.
pub open spec fn handle_spec<H>(n: NodeView<H>, input: Seq<Seq<char>>, position: int) -> CallResult<H> {
    match n.call_type {
        CommandCallType::NoArgs => {
            if input.len() > position {
                CallResult::Fail(
                    FailureType::Warning,
                    "Command "@ + words_before(input, position) + " does not take arguments"@,
                    Seq::<char>::empty(),
                )
            } else {
                CallResult::Run(n.handler, Seq::<char>::empty())
            }
        },
        CommandCallType::Args => {
            if input.len() < position {
                CallResult::OutOfRange
            } else if input.len() == position {
                CallResult::Fail(
                    FailureType::Warning,
                    "Command "@ + words_before(input, position) + " requires arguments"@,
                    Seq::<char>::empty(),
                )
            } else {
                CallResult::Run(n.handler, words_from(input, position))
            }
        },
        CommandCallType::NotCallable => {
            if input.len() < position {
                CallResult::OutOfRange
            } else if input.len() == position {
                CallResult::Fail(
                    FailureType::Warning,
                    "Command "@ + words_before(input, position) + " is not callable"@,
                    Seq::<char>::empty(),
                )
            } else {
                CallResult::Fail(
                    FailureType::Warning,
                    "Command "@ + words_before(input, position)
                        + " is not callable, unexpected arguments: "@ + words_from(input, position),
                    Seq::<char>::empty(),
                )
            }
        },
    }
}

/// Resolving the input from `position` on at the node at `i`: a help
/// command shows the help of its parent one level deep; otherwise the first
/// child that has the current word as alias takes the rest of the input,
/// and without such a child the node itself handles it.
pub open spec fn call_spec<H>(
    nodes: Seq<NodeView<H>>,
    i: int,
    input: Seq<Seq<char>>,
    position: int,
) -> CallResult<H>
    decreases (if 0 <= i < nodes.len() { nodes.len() - i } else { 0 }) as nat,
{
    if i < 0 || i >= nodes.len() {
        CallResult::OutOfRange
    } else {
        let n = nodes[i];
        if n.aliases.contains("help"@) {
            CallResult::Help("Help:\n"@ + help_text(nodes, parent_index(nodes, i), 1))
        } else {
            match matching_child(nodes, n.children, 0, input_at(input, position)) {
                Some(k) => {
                    let c = index_of(nodes, n.children[k]);
                    if i < c < nodes.len() {
                        call_spec(nodes, c, input, position + 1)
                    } else {
                        CallResult::OutOfRange
                    }
                },
                None => handle_spec(n, input, position),
            }
        }
    }
}

/// The abstract value of the result of a call.
pub open spec fn outcome_view<H>(r: Result<CallOutcome<H>, Failure>) -> CallResult<H> {
    match r {
        Ok(CallOutcome::ShowHelp(t)) => CallResult::Help(t@),
        Ok(CallOutcome::Run(h, a)) => CallResult::Run(h, a@),
        Err(f) => CallResult::Fail(f.kind(), f.error_text(), f.message()),
    }
}

/// The first alias, from position `k` on, that has a space or, in a
/// command whose name does not end in `" help"`, is a help word.
pub open spec fn alias_error(name: Seq<char>, aliases: Seq<Seq<char>>, k: int) -> Option<Seq<char>>
    decreases (if k < 0 { 0 } else { aliases.len() - k }) as nat,
{
    if k < 0 || k >= aliases.len() {
        None
    } else if aliases[k].contains(' ') {
        Some("Command spec node aliases cannot contain spaces, invalid alias: "@ + aliases[k])
    } else if !ends_with_spec(name, " help"@) && help_aliases().contains(aliases[k]) {
        Some(
            "Command spec node aliases cannot be '"@ + aliases[k]
                + "', this is a reserved help alias"@,
        )
    } else {
        alias_error(name, aliases, k + 1)
    }
}

/// The first of `aliases`, from position `j` on, that `existing` holds.
pub open spec fn shared_alias(existing: Seq<Seq<char>>, aliases: Seq<Seq<char>>, j: int) -> Option<
    Seq<char>,
>
    decreases (if j < 0 { 0 } else { aliases.len() - j }) as nat,
{
    if j < 0 || j >= aliases.len() {
        None
    } else if existing.contains(aliases[j]) {
        Some(aliases[j])
    } else {
        shared_alias(existing, aliases, j + 1)
    }
}

/// The first alias clash with the children from position `k` on.
pub open spec fn sibling_clash<H>(
    nodes: Seq<NodeView<H>>,
    children: Seq<Seq<char>>,
    k: int,
    aliases: Seq<Seq<char>>,
) -> Option<Seq<char>>
    decreases (if k < 0 { 0 } else { children.len() - k }) as nat,
{
    if k < 0 || k >= children.len() {
        None
    } else {
        match shared_alias(nodes[index_of(nodes, children[k])].aliases, aliases, 0) {
            Some(a) => Some(a),
            None => sibling_clash(nodes, children, k + 1, aliases),
        }
    }
}

/// Why a node cannot be put into the tree, if it cannot: its name is taken,
/// it has no alias, an alias is malformed or reserved, the parent is a help
/// command or missing, a sibling has one of its aliases, or the parent takes
/// arguments.
pub open spec fn insert_error<H>(
    nodes: Seq<NodeView<H>>,
    name: Seq<char>,
    aliases: Seq<Seq<char>>,
    parent: Seq<char>,
) -> Option<Seq<char>> {
    if has_node(nodes, name) {
        Some("Command spec node with name "@ + name + " already exists"@)
    } else if aliases.len() == 0 {
        Some("Command spec node must have at least one valid alias"@)
    } else if alias_error(name, aliases, 0) is Some {
        alias_error(name, aliases, 0)
    } else if ends_with_spec(parent, " help"@) {
        Some(
            "Parent command "@ + parent
                + " cannot be a help command, or command cant end with reserved ' help' suffix"@,
        )
    } else if !has_node(nodes, parent) {
        Some("Parent node "@ + parent + " not found when adding command spec node"@)
    } else {
        let p = nodes[index_of(nodes, parent)];
        match sibling_clash(nodes, p.children, 0, aliases) {
            Some(a) => Some(
                "Parent node "@ + first_alias(p) + " already has a child with alias "@ + a
                    + ", this should not be possible please report this bug"@,
            ),
            None => if p.call_type == CommandCallType::Args {
                Some(
                    "Parent node "@ + first_alias(p)
                        + " is an args command, it cannot have children, this should not be possible please report this bug"@,
                )
            } else {
                None
            },
        }
    }
}

/// The tree with `node` appended and listed as the last child of its parent.
pub open spec fn after_insert<H>(nodes: Seq<NodeView<H>>, node: NodeView<H>) -> Seq<NodeView<H>> {
    let p = index_of(nodes, node.parent);
    let pn = nodes[p];
    nodes.update(
        p,
        NodeView {
            name: pn.name,
            aliases: pn.aliases,
            help: pn.help,
            children: pn.children.push(node.name),
            parent: pn.parent,
            handler: pn.handler,
            call_type: pn.call_type,
        },
    ).push(node)
}

/// A fresh node with no children.
pub open spec fn fresh_node<H>(
    name: Seq<char>,
    aliases: Seq<Seq<char>>,
    help: Seq<char>,
    handler: Option<H>,
    call_type: CommandCallType,
    parent: Seq<char>,
) -> NodeView<H> {
    NodeView {
        name,
        aliases,
        help,
        children: Seq::<Seq<char>>::empty(),
        parent,
        handler,
        call_type,
    }
}

/// The parent named by an optional parent argument: the root when absent.
pub open spec fn parent_or_root(parent: Option<&str>) -> Seq<char> {
    match parent {
        Some(p) => p@,
        None => "root"@,
    }
}

/// The views of string slices.
pub open spec fn str_views(v: Seq<&str>) -> Seq<Seq<char>> {
    v.map_values(|s: &str| s@)
}

/// Adding a command: the command is put under its parent; when the parent
/// has no help command yet, one named `"<parent> help"`, with the help
/// words as aliases and no handler, is put under it too.
pub open spec fn add_spec<H>(
    nodes: Seq<NodeView<H>>,
    name: Seq<char>,
    aliases: Seq<Seq<char>>,
    help: Seq<char>,
    handler: Option<H>,
    call_type: CommandCallType,
    parent: Seq<char>,
) -> Result<Seq<NodeView<H>>, Seq<char>> {
    match insert_error(nodes, name, aliases, parent) {
        Some(e) => Err(e),
        None => {
            let m1 = after_insert(nodes, fresh_node(name, aliases, help, handler, call_type, parent));
            let help_name = parent + " help"@;
            if m1[index_of(m1, parent)].children.contains(help_name) {
                Ok(m1)
            } else {
                match insert_error(m1, help_name, help_aliases(), parent) {
                    Some(e) => Err(e),
                    None => Ok(
                        after_insert(
                            m1,
                            fresh_node(
                                help_name,
                                help_aliases(),
                                " : Show help for "@ + name + " command"@,
                                None,
                                CommandCallType::NoArgs,
                                parent,
                            ),
                        ),
                    ),
                }
            }
        },
    }
}

/// Putting a node that passes every check into a well-formed tree keeps
/// the tree well formed, and moves no existing node.
pub proof fn lemma_after_insert<H>(nodes: Seq<NodeView<H>>, node: NodeView<H>)
    requires
        tree_wf(nodes),
        !has_node(nodes, node.name),
        node.aliases.len() > 0,
        has_node(nodes, node.parent),
        node.children.len() == 0,
    ensures
        tree_wf(after_insert(nodes, node)),
        after_insert(nodes, node).len() == nodes.len() + 1,
        forall|x: Seq<char>|
            has_node(nodes, x) ==> has_node(after_insert(nodes, node), x) && index_of(
                after_insert(nodes, node),
                x,
            ) == index_of(nodes, x),
        has_node(after_insert(nodes, node), node.name),
        index_of(after_insert(nodes, node), node.name) == nodes.len(),
        after_insert(nodes, node)[nodes.len() as int] == node,
        forall|i: int|
            0 <= i < nodes.len() ==> (#[trigger] after_insert(nodes, node)[i]).name == nodes[i].name
                && after_insert(nodes, node)[i].parent == nodes[i].parent
                && after_insert(nodes, node)[i].aliases == nodes[i].aliases
                && after_insert(nodes, node)[i].call_type == nodes[i].call_type,
{
    let m = after_insert(nodes, node);
    let n = nodes.len() as int;
    let p = index_of(nodes, node.parent);
    assert(0 <= p < n && nodes[p].name == node.parent);
    assert forall|i: int| 0 <= i < n implies #[trigger] m[i].name == nodes[i].name && m[i].parent
        == nodes[i].parent && m[i].aliases == nodes[i].aliases && m[i].call_type
        == nodes[i].call_type && (i != p ==> m[i].children == nodes[i].children) by {}
    assert(m[n] == node);
    assert(m[p].children == nodes[p].children.push(node.name));
    assert forall|i: int, j: int|
        0 <= i < m.len() && 0 <= j < m.len() && #[trigger] m[i].name == #[trigger] m[j].name implies i
        == j by {
        if i < n && j < n {
            assert(nodes[i].name == nodes[j].name);
        } else if i < n {
            assert(nodes[i].name == node.name);
        } else if j < n {
            assert(nodes[j].name == node.name);
        }
    }
    assert(names_unique(m));
    assert forall|x: Seq<char>| has_node(nodes, x) implies has_node(m, x) && index_of(m, x)
        == index_of(nodes, x) by {
        let i0 = index_of(nodes, x);
        assert(m[i0].name == x);
        lemma_index_of(m, x, i0);
    }
    lemma_index_of(m, node.name, n);
    assert forall|i: int| 0 < i < m.len() implies {
        &&& (#[trigger] m[i]).aliases.len() > 0
        &&& has_node(m, m[i].parent)
        &&& index_of(m, m[i].parent) < i
    } by {
        if i < n {
            assert(nodes[i].aliases.len() > 0);
            assert(has_node(nodes, nodes[i].parent));
        }
    }
    assert forall|i: int, k: int| 0 <= i < m.len() && 0 <= k < m[i].children.len() implies {
        &&& has_node(m, #[trigger] m[i].children[k])
        &&& index_of(m, m[i].children[k]) > i
        &&& m[index_of(m, m[i].children[k])].parent == m[i].name
    } by {
        if i < n {
            if i == p && k == nodes[p].children.len() {
                assert(m[i].children[k] == node.name);
            } else {
                assert(m[i].children[k] == nodes[i].children[k]);
                assert(has_node(nodes, nodes[i].children[k]));
                let c = index_of(nodes, nodes[i].children[k]);
                assert(c > i);
                assert(nodes[c].parent == nodes[i].name);
            }
        }
    }
}

/// No alias from position `j` on is held by `existing` when none is found
/// there.
proof fn lemma_no_shared_alias(existing: Seq<Seq<char>>, aliases: Seq<Seq<char>>, j: int)
    requires
        j >= 0,
        shared_alias(existing, aliases, j) is None,
    ensures
        forall|t: int| j <= t < aliases.len() ==> !existing.contains(#[trigger] aliases[t]),
    decreases aliases.len() - j,
{
    if j < aliases.len() {
        lemma_no_shared_alias(existing, aliases, j + 1);
    }
}

/// No child from position `k` on shares an alias when no clash is found
/// there.
proof fn lemma_no_sibling_clash<H>(
    nodes: Seq<NodeView<H>>,
    children: Seq<Seq<char>>,
    k: int,
    aliases: Seq<Seq<char>>,
)
    requires
        k >= 0,
        sibling_clash(nodes, children, k, aliases) is None,
    ensures
        forall|c: int, t: int|
            k <= c < children.len() && 0 <= t < aliases.len() ==> !nodes[index_of(
                nodes,
                #[trigger] children[c],
            )].aliases.contains(#[trigger] aliases[t]),
    decreases children.len() - k,
{
    if k < children.len() {
        lemma_no_shared_alias(nodes[index_of(nodes, children[k])].aliases, aliases, 0);
        lemma_no_sibling_clash(nodes, children, k + 1, aliases);
    }
}

/// No alias from position `k` on holds a space when no malformed alias is
/// found there.
proof fn lemma_no_alias_error(name: Seq<char>, aliases: Seq<Seq<char>>, k: int)
    requires
        k >= 0,
        alias_error(name, aliases, k) is None,
    ensures
        forall|t: int| k <= t < aliases.len() ==> !(#[trigger] aliases[t]).contains(' '),
    decreases aliases.len() - k,
{
    if k < aliases.len() {
        lemma_no_alias_error(name, aliases, k + 1);
    }
}

/// A command that is added stands in the tree under its parent as it was
/// given, with no children; its aliases hold no space, and none of the
/// parent's earlier subcommands answers to any of them; the parent then has
/// a help command; and every command that was in the tree stays in it.
pub proof fn lemma_add_places_command<H>(
    nodes: Seq<NodeView<H>>,
    name: Seq<char>,
    aliases: Seq<Seq<char>>,
    help: Seq<char>,
    handler: Option<H>,
    call_type: CommandCallType,
    parent: Seq<char>,
)
    requires
        tree_wf(nodes),
        add_spec(nodes, name, aliases, help, handler, call_type, parent) is Ok,
    ensures
        ({
            let m = add_spec(nodes, name, aliases, help, handler, call_type, parent)->Ok_0;
            let p = m[index_of(m, parent)];
            &&& tree_wf(m)
            &&& has_node(m, name)
            &&& m[index_of(m, name)] == fresh_node(name, aliases, help, handler, call_type, parent)
            &&& has_node(m, parent)
            &&& p.children.contains(name)
            &&& p.children.contains(parent + " help"@)
            &&& has_node(m, parent + " help"@)
            &&& forall|t: int| 0 <= t < aliases.len() ==> !(#[trigger] aliases[t]).contains(' ')
            &&& forall|c: int, t: int|
                0 <= c < nodes[index_of(nodes, parent)].children.len() && 0 <= t < aliases.len()
                    ==> !nodes[index_of(
                    nodes,
                    #[trigger] nodes[index_of(nodes, parent)].children[c],
                )].aliases.contains(#[trigger] aliases[t])
            &&& forall|x: Seq<char>| has_node(nodes, x) ==> has_node(m, x)
        }),
{
    let node = fresh_node(name, aliases, help, handler, call_type, parent);
    assert(insert_error(nodes, name, aliases, parent) is None);
    lemma_no_alias_error(name, aliases, 0);
    let pi = index_of(nodes, parent);
    lemma_no_sibling_clash(nodes, nodes[pi].children, 0, aliases);
    lemma_after_insert(nodes, node);
    let m1 = after_insert(nodes, node);
    let n = nodes.len() as int;
    assert(m1[pi].children == nodes[pi].children.push(name));
    assert(m1[pi].children[m1[pi].children.len() - 1] == name);
    assert(m1[pi].children.contains(name));
    let help_name = parent + " help"@;
    if !m1[index_of(m1, parent)].children.contains(help_name) {
        let hnode = fresh_node(
            help_name,
            help_aliases(),
            " : Show help for "@ + name + " command"@,
            None,
            CommandCallType::NoArgs,
            parent,
        );
        assert(insert_error(m1, help_name, help_aliases(), parent) is None);
        lemma_after_insert(m1, hnode);
        let m2 = after_insert(m1, hnode);
        assert(m2 == add_spec(nodes, name, aliases, help, handler, call_type, parent)->Ok_0);
        assert(m2[n] == m1[n]);
        assert(m2[pi].children == m1[pi].children.push(help_name));
        assert(m2[pi].children[m2[pi].children.len() - 1] == help_name);
        assert(m2[pi].children.contains(help_name));
        let w = choose|w: int| 0 <= w < m1[pi].children.len() && m1[pi].children[w] == name;
        assert(m2[pi].children[w] == name);
    } else {
        let w = choose|w: int| 0 <= w < m1[pi].children.len() && m1[pi].children[w] == help_name;
        assert(has_node(m1, m1[pi].children[w]));
    }
}

/// No command that takes arguments has subcommands.
pub open spec fn args_childless<H>(nodes: Seq<NodeView<H>>) -> bool {
    forall|i: int|
        0 <= i < nodes.len() && (#[trigger] nodes[i]).call_type == CommandCallType::Args
            ==> nodes[i].children.len() == 0
}

/// Putting a fresh node under a parent that takes no arguments keeps every
/// command that takes arguments without subcommands.
proof fn lemma_after_insert_args<H>(nodes: Seq<NodeView<H>>, node: NodeView<H>)
    requires
        tree_wf(nodes),
        args_childless(nodes),
        has_node(nodes, node.parent),
        nodes[index_of(nodes, node.parent)].call_type != CommandCallType::Args,
        node.children.len() == 0,
    ensures
        args_childless(after_insert(nodes, node)),
{
    let m = after_insert(nodes, node);
    let p = index_of(nodes, node.parent);
    assert forall|i: int|
        0 <= i < m.len() && (#[trigger] m[i]).call_type == CommandCallType::Args implies m[i].children.len()
        == 0 by {
        if i < nodes.len() && i != p {
            assert(m[i] == nodes[i]);
        }
    }
}

/// Adding commands never gives a command that takes arguments a
/// subcommand.
pub proof fn lemma_add_keeps_args_childless<H>(
    nodes: Seq<NodeView<H>>,
    name: Seq<char>,
    aliases: Seq<Seq<char>>,
    help: Seq<char>,
    handler: Option<H>,
    call_type: CommandCallType,
    parent: Seq<char>,
)
    requires
        tree_wf(nodes),
        args_childless(nodes),
        add_spec(nodes, name, aliases, help, handler, call_type, parent) is Ok,
    ensures
        args_childless(add_spec(nodes, name, aliases, help, handler, call_type, parent)->Ok_0),
{
    let node = fresh_node(name, aliases, help, handler, call_type, parent);
    assert(insert_error(nodes, name, aliases, parent) is None);
    let pi = index_of(nodes, parent);
    assert(nodes[pi].call_type != CommandCallType::Args);
    lemma_after_insert(nodes, node);
    lemma_after_insert_args(nodes, node);
    let m1 = after_insert(nodes, node);
    let help_name = parent + " help"@;
    if !m1[index_of(m1, parent)].children.contains(help_name) {
        let hnode = fresh_node(
            help_name,
            help_aliases(),
            " : Show help for "@ + name + " command"@,
            None,
            CommandCallType::NoArgs,
            parent,
        );
        assert(insert_error(m1, help_name, help_aliases(), parent) is None);
        lemma_after_insert_args(m1, hnode);
    }
}

/// The aliases of the `a`-th child of the node at `i`.
pub open spec fn child_aliases<H>(nodes: Seq<NodeView<H>>, i: int, a: int) -> Seq<Seq<char>> {
    nodes[index_of(nodes, nodes[i].children[a])].aliases
}

/// No two subcommands of one command answer to the same word.
pub open spec fn siblings_distinct<H>(nodes: Seq<NodeView<H>>) -> bool {
    forall|i: int, a: int, b: int, w: Seq<char>|
        0 <= i < nodes.len() && 0 <= a < b < nodes[i].children.len() && #[trigger] child_aliases(
            nodes,
            i,
            a,
        ).contains(w) ==> !#[trigger] child_aliases(nodes, i, b).contains(w)
}

/// Putting a node whose aliases no subcommand of its parent has keeps the
/// subcommands of every command apart.
proof fn lemma_after_insert_siblings<H>(nodes: Seq<NodeView<H>>, node: NodeView<H>)
    requires
        tree_wf(nodes),
        siblings_distinct(nodes),
        !has_node(nodes, node.name),
        node.aliases.len() > 0,
        has_node(nodes, node.parent),
        node.children.len() == 0,
        forall|c: int, t: int|
            0 <= c < nodes[index_of(nodes, node.parent)].children.len() && 0 <= t
                < node.aliases.len() ==> !nodes[index_of(
                nodes,
                #[trigger] nodes[index_of(nodes, node.parent)].children[c],
            )].aliases.contains(#[trigger] node.aliases[t]),
    ensures
        siblings_distinct(after_insert(nodes, node)),
{
    lemma_after_insert(nodes, node);
    let m = after_insert(nodes, node);
    let n = nodes.len() as int;
    let p = index_of(nodes, node.parent);
    assert forall|i: int, a: int| 0 <= i < n && 0 <= a < nodes[i].children.len() implies
        #[trigger] child_aliases(m, i, a) == child_aliases(nodes, i, a) by {
        let c = nodes[i].children[a];
        assert(m[i].children[a] == c);
        assert(has_node(nodes, c));
        let ci = index_of(nodes, c);
        assert(index_of(m, c) == ci);
        assert(m[ci].aliases == nodes[ci].aliases);
    }
    assert(m[p].children.len() == nodes[p].children.len() + 1);
    assert(m[p].children[nodes[p].children.len() as int] == node.name);
    assert(child_aliases(m, p, nodes[p].children.len() as int) == node.aliases);
    assert forall|i: int, a: int, b: int, w: Seq<char>|
        0 <= i < m.len() && 0 <= a < b < m[i].children.len() && #[trigger] child_aliases(
            m,
            i,
            a,
        ).contains(w) implies !#[trigger] child_aliases(m, i, b).contains(w) by {
        if i < n {
            if i != p || b < nodes[p].children.len() {
                if i != p {
                    assert(m[i] == nodes[i]);
                }
                assert(b < nodes[i].children.len());
                assert(child_aliases(m, i, a) == child_aliases(nodes, i, a));
                assert(child_aliases(m, i, b) == child_aliases(nodes, i, b));
            } else {
                assert(child_aliases(m, i, a) == child_aliases(nodes, i, a));
                if child_aliases(m, i, b).contains(w) {
                    let t = choose|t: int| 0 <= t < node.aliases.len() && node.aliases[t] == w;
                    assert(!nodes[index_of(nodes, nodes[p].children[a])].aliases.contains(
                        node.aliases[t],
                    ));
                }
            }
        }
    }
}

/// Adding a command keeps the subcommands of every command apart: no two
/// of them ever answer to the same word.
pub proof fn lemma_add_keeps_siblings_distinct<H>(
    nodes: Seq<NodeView<H>>,
    name: Seq<char>,
    aliases: Seq<Seq<char>>,
    help: Seq<char>,
    handler: Option<H>,
    call_type: CommandCallType,
    parent: Seq<char>,
)
    requires
        tree_wf(nodes),
        siblings_distinct(nodes),
        add_spec(nodes, name, aliases, help, handler, call_type, parent) is Ok,
    ensures
        siblings_distinct(add_spec(nodes, name, aliases, help, handler, call_type, parent)->Ok_0),
{
    let node = fresh_node(name, aliases, help, handler, call_type, parent);
    assert(insert_error(nodes, name, aliases, parent) is None);
    let pi = index_of(nodes, parent);
    lemma_no_sibling_clash(nodes, nodes[pi].children, 0, aliases);
    lemma_after_insert_siblings(nodes, node);
    lemma_after_insert(nodes, node);
    let m1 = after_insert(nodes, node);
    let help_name = parent + " help"@;
    if !m1[index_of(m1, parent)].children.contains(help_name) {
        let hnode = fresh_node(
            help_name,
            help_aliases(),
            " : Show help for "@ + name + " command"@,
            None,
            CommandCallType::NoArgs,
            parent,
        );
        assert(insert_error(m1, help_name, help_aliases(), parent) is None);
        let qi = index_of(m1, parent);
        lemma_no_sibling_clash(m1, m1[qi].children, 0, help_aliases());
        lemma_after_insert_siblings(m1, hnode);
    }
}

/// The first subcommand from position `k` on that answers to `w` is the
/// one at `c` when no other does.
proof fn lemma_matching_child_unique<H>(
    nodes: Seq<NodeView<H>>,
    i: int,
    k: int,
    c: int,
    w: Seq<char>,
)
    requires
        siblings_distinct(nodes),
        0 <= i < nodes.len(),
        0 <= k <= c < nodes[i].children.len(),
        child_aliases(nodes, i, c).contains(w),
    ensures
        matching_child(nodes, nodes[i].children, k, w) == Some(c),
    decreases c - k,
{
    if k < c {
        assert(!child_aliases(nodes, i, k).contains(w));
        lemma_matching_child_unique(nodes, i, k + 1, c, w);
    }
}

/// Resolving input at a command that is not a help command: when the
/// current word is an alias of one of its subcommands, the rest of the
/// input is resolved at that subcommand.
pub proof fn lemma_call_descends<H>(
    nodes: Seq<NodeView<H>>,
    i: int,
    c: int,
    input: Seq<Seq<char>>,
    position: int,
)
    requires
        tree_wf(nodes),
        siblings_distinct(nodes),
        0 <= i < nodes.len(),
        !nodes[i].aliases.contains("help"@),
        0 <= c < nodes[i].children.len(),
        child_aliases(nodes, i, c).contains(input_at(input, position)),
    ensures
        call_spec(nodes, i, input, position) == call_spec(
            nodes,
            index_of(nodes, nodes[i].children[c]),
            input,
            position + 1,
        ),
{
    lemma_matching_child_unique(nodes, i, 0, c, input_at(input, position));
    assert(has_node(nodes, nodes[i].children[c]));
}

/// Every alias of every command is a word of at least one character.
pub open spec fn aliases_nonempty<H>(nodes: Seq<NodeView<H>>) -> bool {
    forall|i: int, t: int|
        0 <= i < nodes.len() && 0 <= t < nodes[i].aliases.len() ==> (#[trigger] nodes[i].aliases[t]).len()
            > 0
}

/// Putting a node whose aliases are words keeps every alias a word.
proof fn lemma_after_insert_aliases<H>(nodes: Seq<NodeView<H>>, node: NodeView<H>)
    requires
        tree_wf(nodes),
        aliases_nonempty(nodes),
        has_node(nodes, node.parent),
        forall|t: int| 0 <= t < node.aliases.len() ==> (#[trigger] node.aliases[t]).len() > 0,
    ensures
        aliases_nonempty(after_insert(nodes, node)),
{
    let m = after_insert(nodes, node);
    let p = index_of(nodes, node.parent);
    assert forall|i: int, t: int| 0 <= i < m.len() && 0 <= t < m[i].aliases.len() implies (
    #[trigger] m[i].aliases[t]).len() > 0 by {
        if i < nodes.len() {
            assert(m[i].aliases == nodes[i].aliases);
        }
    }
}

/// Adding a command whose aliases are words keeps every alias a word.
pub proof fn lemma_add_keeps_aliases_nonempty<H>(
    nodes: Seq<NodeView<H>>,
    name: Seq<char>,
    aliases: Seq<Seq<char>>,
    help: Seq<char>,
    handler: Option<H>,
    call_type: CommandCallType,
    parent: Seq<char>,
)
    requires
        tree_wf(nodes),
        aliases_nonempty(nodes),
        forall|t: int| 0 <= t < aliases.len() ==> (#[trigger] aliases[t]).len() > 0,
        add_spec(nodes, name, aliases, help, handler, call_type, parent) is Ok,
    ensures
        aliases_nonempty(add_spec(nodes, name, aliases, help, handler, call_type, parent)->Ok_0),
{
    let node = fresh_node(name, aliases, help, handler, call_type, parent);
    assert(insert_error(nodes, name, aliases, parent) is None);
    lemma_after_insert(nodes, node);
    lemma_after_insert_aliases(nodes, node);
    let m1 = after_insert(nodes, node);
    let help_name = parent + " help"@;
    if !m1[index_of(m1, parent)].children.contains(help_name) {
        let hnode = fresh_node(
            help_name,
            help_aliases(),
            " : Show help for "@ + name + " command"@,
            None,
            CommandCallType::NoArgs,
            parent,
        );
        assert(insert_error(m1, help_name, help_aliases(), parent) is None);
        reveal_strlit("help");
        reveal_strlit("h");
        assert forall|t: int| 0 <= t < hnode.aliases.len() implies (#[trigger] hnode.aliases[t]).len()
            > 0 by {
            if t == 0 {
                assert(hnode.aliases[t] == "help"@);
            } else {
                assert(hnode.aliases[t] == "h"@);
            }
        }
        lemma_after_insert_aliases(m1, hnode);
    }
}

/// The subcommand that `matching_child` picks answers to the word.
proof fn lemma_matching_child_matches<H>(
    nodes: Seq<NodeView<H>>,
    children: Seq<Seq<char>>,
    k: int,
    w: Seq<char>,
)
    requires
        matching_child(nodes, children, k, w) is Some,
    ensures
        k <= matching_child(nodes, children, k, w)->0 < children.len(),
        0 <= matching_child(nodes, children, k, w)->0,
        nodes[index_of(nodes, children[matching_child(nodes, children, k, w)->0])].aliases.contains(
            w,
        ),
    decreases (if k < 0 { 0 } else { children.len() - k }) as nat,
{
    if !(k < 0 || k >= children.len()) && !nodes[index_of(nodes, children[k])].aliases.contains(w) {
        lemma_matching_child_matches(nodes, children, k + 1, w);
    }
}

/// In a well-formed tree whose aliases are all words, resolving input from
/// any position up to its end never slices it out of range: a subcommand
/// is only entered on a word of the input.
pub proof fn lemma_call_in_range<H>(
    nodes: Seq<NodeView<H>>,
    i: int,
    input: Seq<Seq<char>>,
    position: int,
)
    requires
        tree_wf(nodes),
        aliases_nonempty(nodes),
        0 <= i < nodes.len(),
        0 <= position <= input.len(),
    ensures
        !(call_spec(nodes, i, input, position) is OutOfRange),
    decreases nodes.len() - i,
{
    let n = nodes[i];
    if !n.aliases.contains("help"@) {
        let w = input_at(input, position);
        match matching_child(nodes, n.children, 0, w) {
            Some(k) => {
                lemma_matching_child_matches(nodes, n.children, 0, w);
                let c = index_of(nodes, n.children[k]);
                assert(has_node(nodes, n.children[k]));
                assert(c > i);
                let t = choose|t: int| 0 <= t < nodes[c].aliases.len() && nodes[c].aliases[t] == w;
                assert(nodes[c].aliases[t].len() > 0);
                assert(position < input.len());
                lemma_call_in_range(nodes, c, input, position + 1);
            },
            None => {},
        }
    }
}

/// The node reached from the root by taking, at each step `j`, the
/// subcommand at position `cs[j]`.
pub open spec fn reached<H>(nodes: Seq<NodeView<H>>, cs: Seq<int>, k: int) -> int
    decreases k,
{
    if k <= 0 {
        0
    } else {
        index_of(nodes, nodes[reached(nodes, cs, k - 1)].children[cs[k - 1]])
    }
}

/// The words of `input` spell the path `cs` from the root: at each step the
/// command reached is not a help command, and the next word is an alias of
/// the subcommand taken.
pub open spec fn spells_path<H>(nodes: Seq<NodeView<H>>, input: Seq<Seq<char>>, cs: Seq<int>) -> bool {
    forall|j: int|
        0 <= j < cs.len() ==> {
            &&& 0 <= cs[j] < nodes[reached(nodes, cs, j)].children.len()
            &&& !nodes[reached(nodes, cs, j)].aliases.contains("help"@)
            &&& child_aliases(nodes, reached(nodes, cs, j), cs[j]).contains(
                #[trigger] input_at(input, j),
            )
        }
}

/// Following the first `k` steps of a spelled path lands on a node of the
/// tree, and resolving the input at the root is resolving it there.
proof fn lemma_path_prefix<H>(nodes: Seq<NodeView<H>>, input: Seq<Seq<char>>, cs: Seq<int>, k: int)
    requires
        tree_wf(nodes),
        siblings_distinct(nodes),
        spells_path(nodes, input, cs),
        0 <= k <= cs.len(),
    ensures
        0 <= reached(nodes, cs, k) < nodes.len(),
        call_spec(nodes, 0, input, 0) == call_spec(nodes, reached(nodes, cs, k), input, k),
    decreases k,
{
    if k > 0 {
        lemma_path_prefix(nodes, input, cs, k - 1);
        let r = reached(nodes, cs, k - 1);
        assert(input_at(input, k - 1) == input_at(input, k - 1));
        assert(0 <= cs[k - 1] < nodes[r].children.len());
        assert(has_node(nodes, nodes[r].children[cs[k - 1]]));
        lemma_call_descends(nodes, r, cs[k - 1], input, k - 1);
    }
}

/// Input whose first words spell the path to a command, followed by a word
/// that selects a help command under it, shows the help of that command one
/// level deep, whatever words follow.
pub proof fn lemma_call_shows_help<H>(
    nodes: Seq<NodeView<H>>,
    input: Seq<Seq<char>>,
    cs: Seq<int>,
    h: int,
)
    requires
        tree_wf(nodes),
        siblings_distinct(nodes),
        spells_path(nodes, input, cs),
        !nodes[reached(nodes, cs, cs.len() as int)].aliases.contains("help"@),
        0 <= h < nodes[reached(nodes, cs, cs.len() as int)].children.len(),
        child_aliases(nodes, reached(nodes, cs, cs.len() as int), h).contains(
            input_at(input, cs.len() as int),
        ),
        child_aliases(nodes, reached(nodes, cs, cs.len() as int), h).contains("help"@),
    ensures
        call_spec(nodes, 0, input, 0) == CallResult::<H>::Help(
            "Help:\n"@ + help_text(nodes, reached(nodes, cs, cs.len() as int), 1),
        ),
{
    let k = cs.len() as int;
    lemma_path_prefix(nodes, input, cs, k);
    let n = reached(nodes, cs, k);
    lemma_call_descends(nodes, n, h, input, k);
    let c = index_of(nodes, nodes[n].children[h]);
    assert(has_node(nodes, nodes[n].children[h]));
    assert(nodes[c].parent == nodes[n].name);
    lemma_index_of(nodes, nodes[n].name, n);
}

/// Input whose words, all of them, spell the path to a command that takes
/// no arguments runs that command's handler with empty arguments, at any
/// depth of the tree.
pub proof fn lemma_call_runs_no_args_path<H>(
    nodes: Seq<NodeView<H>>,
    input: Seq<Seq<char>>,
    cs: Seq<int>,
)
    requires
        tree_wf(nodes),
        siblings_distinct(nodes),
        aliases_nonempty(nodes),
        spells_path(nodes, input, cs),
        cs.len() == input.len(),
        nodes[reached(nodes, cs, cs.len() as int)].call_type == CommandCallType::NoArgs,
        !nodes[reached(nodes, cs, cs.len() as int)].aliases.contains("help"@),
    ensures
        call_spec(nodes, 0, input, 0) == CallResult::<H>::Run(
            nodes[reached(nodes, cs, cs.len() as int)].handler,
            Seq::<char>::empty(),
        ),
{
    let k = cs.len() as int;
    lemma_path_prefix(nodes, input, cs, k);
    let r = reached(nodes, cs, k);
    let w = input_at(input, k);
    assert(w == Seq::<char>::empty());
    if matching_child(nodes, nodes[r].children, 0, w) is Some {
        lemma_matching_child_matches(nodes, nodes[r].children, 0, w);
        let m = matching_child(nodes, nodes[r].children, 0, w)->0;
        let c = index_of(nodes, nodes[r].children[m]);
        assert(has_node(nodes, nodes[r].children[m]));
        let t = choose|t: int| 0 <= t < nodes[c].aliases.len() && nodes[c].aliases[t] == w;
        assert(nodes[c].aliases[t].len() > 0);
    }
}

/// Input whose first words spell the path to a command that takes no
/// arguments, followed by a word that none of its subcommands answers to,
/// is refused with a warning that names the command by those words.
pub proof fn lemma_call_refuses_extra_words<H>(
    nodes: Seq<NodeView<H>>,
    input: Seq<Seq<char>>,
    cs: Seq<int>,
)
    requires
        tree_wf(nodes),
        siblings_distinct(nodes),
        spells_path(nodes, input, cs),
        cs.len() < input.len(),
        nodes[reached(nodes, cs, cs.len() as int)].call_type == CommandCallType::NoArgs,
        !nodes[reached(nodes, cs, cs.len() as int)].aliases.contains("help"@),
        forall|c: int|
            0 <= c < nodes[reached(nodes, cs, cs.len() as int)].children.len() ==> !(
            #[trigger] child_aliases(nodes, reached(nodes, cs, cs.len() as int), c)).contains(
                input[cs.len() as int],
            ),
    ensures
        call_spec(nodes, 0, input, 0) == CallResult::<H>::Fail(
            FailureType::Warning,
            "Command "@ + join_spec(input.subrange(0, cs.len() as int), " "@)
                + " does not take arguments"@,
            Seq::<char>::empty(),
        ),
{
    let k = cs.len() as int;
    lemma_path_prefix(nodes, input, cs, k);
    let r = reached(nodes, cs, k);
    let w = input_at(input, k);
    if matching_child(nodes, nodes[r].children, 0, w) is Some {
        lemma_matching_child_matches(nodes, nodes[r].children, 0, w);
        let m = matching_child(nodes, nodes[r].children, 0, w)->0;
        assert(child_aliases(nodes, r, m).contains(w));
    }
}

/// For a tree that [`CommandSpec::call`] accepts and whose aliases are all
/// words, a line whose words exactly spell the path to a command that takes
/// no arguments runs that command's handler with empty arguments.
pub proof fn lemma_line_runs_no_args_command<H>(spec: &CommandSpec<H>, line: Seq<char>, cs: Seq<int>)
    requires
        spec.wf(),
        aliases_nonempty(spec@),
        spells_path(spec@, split_spaces_spec(line), cs),
        cs.len() == split_spaces_spec(line).len(),
        spec@[reached(spec@, cs, cs.len() as int)].call_type == CommandCallType::NoArgs,
        !spec@[reached(spec@, cs, cs.len() as int)].aliases.contains("help"@),
    ensures
        call_spec(spec@, 0, split_spaces_spec(line), 0) == CallResult::<H>::Run(
            spec@[reached(spec@, cs, cs.len() as int)].handler,
            Seq::<char>::empty(),
        ),
{
    lemma_call_runs_no_args_path(spec@, split_spaces_spec(line), cs);
}

/// Input whose first words spell the path to a command that takes
/// arguments, followed by at least one more word, runs that command's
/// handler with the remaining words joined by spaces.
pub proof fn lemma_call_runs_path<H>(nodes: Seq<NodeView<H>>, input: Seq<Seq<char>>, cs: Seq<int>)
    requires
        tree_wf(nodes),
        siblings_distinct(nodes),
        args_childless(nodes),
        spells_path(nodes, input, cs),
        cs.len() < input.len(),
        nodes[reached(nodes, cs, cs.len() as int)].call_type == CommandCallType::Args,
        !nodes[reached(nodes, cs, cs.len() as int)].aliases.contains("help"@),
    ensures
        call_spec(nodes, 0, input, 0) == CallResult::Run(
            nodes[reached(nodes, cs, cs.len() as int)].handler,
            words_from(input, cs.len() as int),
        ),
{
    let k = cs.len() as int;
    lemma_path_prefix(nodes, input, cs, k);
    let r = reached(nodes, cs, k);
    assert(nodes[r].children.len() == 0);
    assert(matching_child(nodes, nodes[r].children, 0, input_at(input, k)) is None);
}

/// A line of input whose first `k` words spell the path to a command that
/// takes arguments, with at least one more word after them, runs that
/// command's handler with the text of the line after the first `k` words
/// and the space that follows each of them.
pub proof fn lemma_call_runs_line<H>(nodes: Seq<NodeView<H>>, line: Seq<char>, cs: Seq<int>)
    requires
        tree_wf(nodes),
        siblings_distinct(nodes),
        args_childless(nodes),
        spells_path(nodes, split_spaces_spec(line), cs),
        1 <= cs.len() < split_spaces_spec(line).len(),
        nodes[reached(nodes, cs, cs.len() as int)].call_type == CommandCallType::Args,
        !nodes[reached(nodes, cs, cs.len() as int)].aliases.contains("help"@),
    ensures
        call_spec(nodes, 0, split_spaces_spec(line), 0) == CallResult::Run(
            nodes[reached(nodes, cs, cs.len() as int)].handler,
            line.subrange(
                words_before(split_spaces_spec(line), cs.len() as int).len() + 1int,
                line.len() as int,
            ),
        ),
{
    let input = split_spaces_spec(line);
    lemma_call_runs_path(nodes, input, cs);
    lemma_rest_of_input(line, cs.len() as int);
}

impl<H> CommandSpecNode<H> {
    fn new(
        name: String,
        valid_aliases: Vec<String>,
        help: String,
        handler: Option<H>,
        call_type: CommandCallType,
        parent: String,
    ) -> (n: CommandSpecNode<H>)
        ensures
            n@ == (NodeView {
                name: name@,
                aliases: views(valid_aliases@),
                help: help@,
                children: Seq::<Seq<char>>::empty(),
                parent: parent@,
                handler: handler,
                call_type: call_type,
            }),
    {
        let n = CommandSpecNode {
            name,
            valid_aliases,
            help,
            children: Vec::new(),
            handler,
            call_type,
            parent,
        };
        assert(views(n.children@) =~= Seq::<Seq<char>>::empty());
        n
    }
}

/// For a tree that [`CommandSpec::call`] accepts, a line whose first `k`
/// words spell the path to a command that takes arguments, with more words
/// after them, runs that command's handler with the rest of the line.
pub proof fn lemma_line_runs_command<H>(spec: &CommandSpec<H>, line: Seq<char>, cs: Seq<int>)
    requires
        spec.wf(),
        spells_path(spec@, split_spaces_spec(line), cs),
        1 <= cs.len() < split_spaces_spec(line).len(),
        spec@[reached(spec@, cs, cs.len() as int)].call_type == CommandCallType::Args,
        !spec@[reached(spec@, cs, cs.len() as int)].aliases.contains("help"@),
    ensures
        call_spec(spec@, 0, split_spaces_spec(line), 0) == CallResult::Run(
            spec@[reached(spec@, cs, cs.len() as int)].handler,
            line.subrange(
                words_before(split_spaces_spec(line), cs.len() as int).len() + 1int,
                line.len() as int,
            ),
        ),
{
    lemma_call_runs_line(spec@, line, cs);
}

/// In a tree that [`CommandSpec::call`] accepts and whose aliases are all
/// words, no line is sliced out of range, so `call` takes every line.
pub proof fn lemma_every_line_in_range<H>(spec: &CommandSpec<H>, line: Seq<char>)
    requires
        spec.wf(),
        aliases_nonempty(spec@),
    ensures
        !(call_spec(spec@, 0, split_spaces_spec(line), 0) is OutOfRange),
{
    lemma_call_in_range(spec@, 0, split_spaces_spec(line), 0);
}

impl<H> CommandSpec<H> {
    /// The command tree is well formed, no two subcommands of one command
    /// answer to the same word, and no command that takes arguments has
    /// subcommands.
    pub open spec fn wf(&self) -> bool {
        &&& tree_wf(self@)
        &&& siblings_distinct(self@)
        &&& args_childless(self@)
    }

    /// A tree with only the root, which is not callable and carries the
    /// title of the help text.
    pub fn new() -> (s: CommandSpec<H>)
        ensures
            s.wf(),
            s@ == seq![
                NodeView::<H> {
                    name: "root"@,
                    aliases: Seq::<Seq<char>>::empty(),
                    help: "REVERB commands:"@,
                    children: Seq::<Seq<char>>::empty(),
                    parent: "root"@,
                    handler: None,
                    call_type: CommandCallType::NotCallable,
                },
            ],
            siblings_distinct(s@),
            args_childless(s@),
            aliases_nonempty(s@),
    {
        let no_aliases: Vec<String> = Vec::new();
        assert(views(no_aliases@) =~= Seq::<Seq<char>>::empty());
        let root = CommandSpecNode::new(
            String::from_str("root"),
            no_aliases,
            String::from_str("REVERB commands:"),
            None,
            CommandCallType::NotCallable,
            String::from_str("root"),
        );
        let mut nodes: Vec<CommandSpecNode<H>> = Vec::new();
        nodes.push(root);
        let s = CommandSpec { nodes };
        assert(s@ =~= seq![root@]);
        s
    }

    /// The position of the node named `name`, if there is one.
    fn find(&self, name: &str) -> (r: Option<usize>)
        ensures
            match r {
                Some(i) => i < self@.len() && self@[i as int].name == name@,
                None => !has_node(self@, name@),
            },
    {
        let key = String::from_str(name);
        let mut i: usize = 0;
        while i < self.nodes.len()
            invariant
                key@ == name@,
                i <= self.nodes.len(),
                forall|j: int| 0 <= j < i ==> self@[j].name != name@,
            decreases self.nodes.len() - i,
        {
            if self.nodes[i].name == key {
                return Some(i);
            }
            i = i + 1;
        }
        None
    }

    /// The node named `name`, if there is one.
    fn get(&self, name: &str) -> (r: Option<&CommandSpecNode<H>>)
        requires
            self.wf(),
        ensures
            match r {
                Some(n) => has_node(self@, name@) && n@ == self@[index_of(self@, name@)],
                None => !has_node(self@, name@),
            },
    {
        match self.find(name) {
            Some(i) => {
                proof {
                    lemma_index_of(self@, name@, i as int);
                }
                Some(&self.nodes[i])
            },
            None => None,
        }
    }

    /// The root node.
    fn root(&self) -> (r: &CommandSpecNode<H>)
        requires
            self.wf(),
        ensures
            r@ == self@[0],
    {
        &self.nodes[0]
    }
}


impl<H> CommandSpecNode<H> {
    /// Whether one of the aliases is `word`.
    fn has_alias(&self, word: &String) -> (b: bool)
        ensures
            b == self@.aliases.contains(word@),
    {
        let mut j: usize = 0;
        while j < self.valid_aliases.len()
            invariant
                j <= self.valid_aliases.len(),
                forall|m: int| 0 <= m < j ==> self@.aliases[m] != word@,
            decreases self.valid_aliases.len() - j,
        {
            if self.valid_aliases[j] == *word {
                assert(self@.aliases[j as int] == word@);
                return true;
            }
            j = j + 1;
        }
        assert(!self@.aliases.contains(word@));
        false
    }

    /// The first alias, or the empty string for a node without one.
    fn first_alias(&self) -> (r: String)
        ensures
            r@ == first_alias(self@),
    {
        if self.valid_aliases.len() > 0 {
            self.valid_aliases[0].clone()
        } else {
            String::new()
        }
    }

    /// The aliases joined with `" | "`.
    fn joined_aliases(&self) -> (r: String)
        ensures
            r@ == join_spec(self@.aliases, " | "@),
    {
        let r = join(&self.valid_aliases, 0, self.valid_aliases.len(), " | ");
        assert(views(self.valid_aliases@).subrange(0, self.valid_aliases@.len() as int)
            =~= self@.aliases);
        r
    }

    /// The parent node of this node.
    fn parent<'a>(&self, command_spec: &'a CommandSpec<H>) -> (p: &'a CommandSpecNode<H>)
        requires
            command_spec.wf(),
            node_of(command_spec@, self@),
        ensures
            p@ == command_spec@[parent_index(command_spec@, index_of(command_spec@, self@.name))],
    {
        let ghost i = index_of(command_spec@, self@.name);
        proof {
            if i == 0 {
                lemma_root_parent(command_spec@);
            } else {
                assert(0 < i < command_spec@.len());
                assert(command_spec@[i].aliases.len() > 0);
            }
        }
        match command_spec.get(self.parent.as_str()) {
            Some(p) => p,
            None => {
                proof {
                    assert(false);
                }
                command_spec.root()
            },
        }
    }

    /// Append the help text of this command to `out_string`, descending
    /// `num_layers` levels into its subcommands.
    fn sprint_help(&self, command_spec: &CommandSpec<H>, num_layers: usize, out_string: &mut String)
        requires
            command_spec.wf(),
            node_of(command_spec@, self@),
        ensures
            final(out_string)@ == old(out_string)@ + help_text(
                command_spec@,
                index_of(command_spec@, self@.name),
                num_layers as nat,
            ),
        decreases num_layers, 0nat,
    {
        let ghost nodes = command_spec@;
        let ghost i = index_of(nodes, self@.name);
        let root = command_spec.root();
        let mut prefix = String::new();
        let mut current_parent = self.parent(command_spec);
        proof {
            lemma_root_parent(nodes);
        }
        while !current_parent.same_command(root)
            invariant
                command_spec.wf(),
                nodes == command_spec@,
                root@ == nodes[0],
                node_of(nodes, current_parent@),
                path_prefix(nodes, parent_index(nodes, i)) == path_prefix(
                    nodes,
                    index_of(nodes, current_parent@.name),
                ) + prefix@,
            decreases index_of(nodes, current_parent@.name),
        {
            let ghost c = index_of(nodes, current_parent@.name);
            assert(c != 0);
            let mut next_prefix = current_parent.first_alias();
            next_prefix.append(" ");
            next_prefix.append(prefix.as_str());
            prefix = next_prefix;
            let next = current_parent.parent(command_spec);
            proof {
                let p = parent_index(nodes, c);
                lemma_index_of(nodes, next@.name, p);
                assert(path_prefix(nodes, c) == path_prefix(nodes, p) + first_alias(nodes[c]) + " "@);
                assert(path_prefix(nodes, parent_index(nodes, i)) =~= path_prefix(nodes, p) + prefix@);
            }
            current_parent = next;
        }
        proof {
            let c = index_of(nodes, current_parent@.name);
            if c != 0 {
                assert(nodes[c].aliases.len() > 0);
                assert(current_parent@.aliases.len() != root@.aliases.len());
            }
            assert(path_prefix(nodes, c) =~= Seq::<char>::empty());
            assert(prefix@ =~= path_prefix(nodes, parent_index(nodes, i)));
        }
        let joined = self.joined_aliases();
        let ghost start = out_string@;
        out_string.append(prefix.as_str());
        out_string.append(" ");
        out_string.append(joined.as_str());
        out_string.append(self.help.as_str());
        out_string.append("\n");
        assert(out_string@ =~= start + help_line(prefix@, self@));
        if num_layers > 0 {
            let mut k: usize = 0;
            while k < self.children.len()
                invariant
                    command_spec.wf(),
                    nodes == command_spec@,
                    node_of(nodes, self@),
                    i == index_of(nodes, self@.name),
                    0 < num_layers,
                    k <= self.children.len(),
                    out_string@ == start + help_line(prefix@, self@) + children_prefix(
                        nodes,
                        self@.children,
                        k as int,
                        (num_layers - 1) as nat,
                    ),
                decreases self.children.len() - k,
            {
                let ghost before = out_string@;
                proof {
                    assert(0 <= i < nodes.len());
                    assert(has_node(nodes, nodes[i].children[k as int]));
                }
                match command_spec.get(self.children[k].as_str()) {
                    Some(node) => {
                        node.sprint_help(command_spec, num_layers - 1, out_string);
                        proof {
                            let layers = (num_layers - 1) as nat;
                            assert(node@.name == self@.children[k as int]);
                            assert(children_prefix(nodes, self@.children, k + 1, layers)
                                == children_prefix(nodes, self@.children, k as int, layers) + help_text(
                                nodes,
                                index_of(nodes, self@.children[k as int]),
                                layers,
                            ));
                            assert(out_string@ =~= start + help_line(prefix@, self@) + children_prefix(
                                nodes,
                                self@.children,
                                k + 1,
                                layers,
                            ));
                        }
                    },
                    None => {
                        proof {
                            assert(false);
                        }
                    },
                }
                k = k + 1;
            }
            proof {
                lemma_children_prefix_full(nodes, self@.children, (num_layers - 1) as nat);
            }
        } else if self.children.len() > 0 {
            out_string.append(prefix.as_str());
            out_string.append(" ");
            out_string.append(joined.as_str());
            out_string.append(" <args> | help (for more information on this command and its subcommands)\n");
        }
    }

    /// Whether two nodes are the same command: the same aliases and the
    /// same parent.
    fn same_command(&self, other: &CommandSpecNode<H>) -> (b: bool)
        ensures
            b == (self@.aliases == other@.aliases && self@.parent == other@.parent),
    {
        if self.valid_aliases.len() != other.valid_aliases.len() {
            assert(self@.aliases.len() != other@.aliases.len());
            return false;
        }
        let mut i: usize = 0;
        while i < self.valid_aliases.len()
            invariant
                self.valid_aliases.len() == other.valid_aliases.len(),
                i <= self.valid_aliases.len(),
                forall|j: int| 0 <= j < i ==> self@.aliases[j] == other@.aliases[j],
            decreases self.valid_aliases.len() - i,
        {
            if self.valid_aliases[i] != other.valid_aliases[i] {
                assert(self@.aliases[i as int] != other@.aliases[i as int]);
                return false;
            }
            i = i + 1;
        }
        assert(self@.aliases =~= other@.aliases);
        self.parent == other.parent
    }
}


impl<H: Copy> CommandSpecNode<H> {
    /// The help shown for a help command: the help of its parent, one level
    /// into the parent's subcommands.
    fn print_help(&self, command_spec: &CommandSpec<H>, num_layers: usize) -> (text: String)
        requires
            command_spec.wf(),
            node_of(command_spec@, self@),
        ensures
            text@ == "Help:\n"@ + help_text(
                command_spec@,
                parent_index(command_spec@, index_of(command_spec@, self@.name)),
                num_layers as nat,
            ),
    {
        let mut out_string = String::from_str("Help:\n");
        let p = self.parent(command_spec);
        proof {
            let i = index_of(command_spec@, self@.name);
            let pi = parent_index(command_spec@, i);
            if i == 0 {
                lemma_root_parent(command_spec@);
            }
            assert(0 <= pi < command_spec@.len());
            lemma_index_of(command_spec@, p@.name, pi);
        }
        p.sprint_help(command_spec, num_layers, &mut out_string);
        out_string
    }

    /// Resolve the input from `position` on at this node.
    /// `None` when the input would be sliced out of range.
    fn call(&self, input: &Vec<String>, position: usize, command_spec: &CommandSpec<H>) -> (r: Option<
        Result<CallOutcome<H>, Failure>,
    >)
        requires
            command_spec.wf(),
            node_of(command_spec@, self@),
            position <= index_of(command_spec@, self@.name),
        ensures
            match r {
                Some(x) => outcome_view(x) == call_spec(
                    command_spec@,
                    index_of(command_spec@, self@.name),
                    views(input@),
                    position as int,
                ),
                None => call_spec(
                    command_spec@,
                    index_of(command_spec@, self@.name),
                    views(input@),
                    position as int,
                ) is OutOfRange,
            },
        decreases command_spec@.len() - index_of(command_spec@, self@.name),
    {
        let ghost nodes = command_spec@;
        let ghost i = index_of(nodes, self@.name);
        proof {
            lemma_index_of(nodes, self@.name, i);
        }
        if self.has_alias(&String::from_str("help")) {
            let text = self.print_help(command_spec, 1);
            return Some(Ok(CallOutcome::ShowHelp(text)));
        }
        let word = if position < input.len() {
            input[position].clone()
        } else {
            String::new()
        };
        assert(word@ == input_at(views(input@), position as int));
        let mut k: usize = 0;
        while k < self.children.len()
            invariant
                command_spec.wf(),
                nodes == command_spec@,
                node_of(nodes, self@),
                i == index_of(nodes, self@.name),
                k <= self.children.len(),
                position <= i,
                !nodes[i].aliases.contains("help"@),
                word@ == input_at(views(input@), position as int),
                matching_child(nodes, self@.children, 0, word@) == matching_child(
                    nodes,
                    self@.children,
                    k as int,
                    word@,
                ),
            decreases self.children.len() - k,
        {
            proof {
                assert(has_node(nodes, nodes[i].children[k as int]));
            }
            match command_spec.get(self.children[k].as_str()) {
                Some(node) => {
                    if node.has_alias(&word) {
                        let n_len = command_spec.nodes.len();
                        proof {
                            let c = index_of(nodes, self@.children[k as int]);
                            assert(c > i);
                            lemma_index_of(nodes, node@.name, c);
                            assert(nodes.len() == command_spec.nodes@.len());
                            assert(position < c < n_len);
                        }
                        return node.call(input, position + 1, command_spec);
                    }
                },
                None => {
                    proof {
                        assert(false);
                    }
                },
            }
            k = k + 1;
        }
        self.handle(input, position, command_spec)
    }

    /// Handle the input that remains after this command: check it against
    /// the call type and hand the handler its arguments.
    /// `None` when the input would be sliced out of range.
    fn handle(&self, input: &Vec<String>, position: usize, _command_spec: &CommandSpec<H>) -> (r:
        Option<Result<CallOutcome<H>, Failure>>)
        ensures
            match r {
                Some(x) => outcome_view(x) == handle_spec(self@, views(input@), position as int),
                None => handle_spec(self@, views(input@), position as int) is OutOfRange,
            },
    {
        let args;
        match self.call_type {
            CommandCallType::NoArgs => {
                if input.len() > position {
                    let mut m = String::from_str("Command ");
                    m.append(join(input, 0, position, " ").as_str());
                    m.append(" does not take arguments");
                    return Some(Err(Failure::new(m, FailureType::Warning)));
                }
                args = String::new();
            },
            CommandCallType::Args => {
                if input.len() < position {
                    return None;
                }
                if input.len() == position {
                    let mut m = String::from_str("Command ");
                    m.append(join(input, 0, position, " ").as_str());
                    m.append(" requires arguments");
                    return Some(Err(Failure::new(m, FailureType::Warning)));
                }
                args = join(input, position, input.len(), " ");
            },
            CommandCallType::NotCallable => {
                if input.len() < position {
                    return None;
                }
                if input.len() == position {
                    let mut m = String::from_str("Command ");
                    m.append(join(input, 0, position, " ").as_str());
                    m.append(" is not callable");
                    return Some(Err(Failure::new(m, FailureType::Warning)));
                } else {
                    let mut m = String::from_str("Command ");
                    m.append(join(input, 0, position, " ").as_str());
                    m.append(" is not callable, unexpected arguments: ");
                    m.append(join(input, position, input.len(), " ").as_str());
                    return Some(Err(Failure::new(m, FailureType::Warning)));
                }
            },
        }
        Some(Ok(CallOutcome::Run(self.handler, args)))
    }
}

impl<H: Copy> CommandSpec<H> {
    /// Resolve a line of user input: split it on spaces and walk the tree
    /// from the root.
    pub fn call(&self, input: &str) -> (r: Result<CallOutcome<H>, Failure>)
        requires
            self.wf(),
            !(call_spec(self@, 0, split_spaces_spec(input@), 0) is OutOfRange),
        ensures
            outcome_view(r) == call_spec(self@, 0, split_spaces_spec(input@), 0),
    {
        match self.try_call(input) {
            Some(r) => r,
            None => Err(Failure::new(String::new(), FailureType::Warning)),
        }
    }

    /// Resolve a line of user input as [`CommandSpec::call`] does, or give
    /// `None` for input that the tree would slice out of range.
    pub fn try_call(&self, input: &str) -> (r: Option<Result<CallOutcome<H>, Failure>>)
        requires
            self.wf(),
        ensures
            match r {
                Some(x) => outcome_view(x) == call_spec(self@, 0, split_spaces_spec(input@), 0),
                None => call_spec(self@, 0, split_spaces_spec(input@), 0) is OutOfRange,
            },
    {
        let parts = split_spaces(input);
        let root = self.root();
        proof {
            lemma_index_of(self@, root@.name, 0);
        }
        root.call(&parts, 0, self)
    }
}


/// A fatal failure with the given description.
fn fatal(text: String) -> (f: Failure)
    ensures
        f.is(FailureType::Fatal, text@),
{
    Failure::new(text, FailureType::Fatal)
}

impl<H> CommandSpec<H> {
    /// Put `node` into the tree under its parent, after checking it the way
    /// [`insert_error`] describes; the tree is unchanged on failure.
    fn insert_node(&mut self, node: CommandSpecNode<H>) -> (r: Result<(), Failure>)
        requires
            old(self).wf(),
            node@.children.len() == 0,
        ensures
            final(self).wf(),
            match insert_error(old(self)@, node@.name, node@.aliases, node@.parent) {
                Some(e) => r matches Err(f) && f.is(FailureType::Fatal, e) && final(self)@ == old(
                    self,
                )@,
                None => r is Ok && final(self)@ == after_insert(old(self)@, node@),
            },
    {
        let ghost nodes = self@;
        if self.find(node.name.as_str()).is_some() {
            let mut m = String::from_str("Command spec node with name ");
            m.append(node.name.as_str());
            m.append(" already exists");
            return Err(fatal(m));
        }
        if node.valid_aliases.len() == 0 {
            return Err(fatal(String::from_str("Command spec node must have at least one valid alias")));
        }
        let help_suffix = ends_with(node.name.as_str(), " help");
        let help_word = String::from_str("help");
        let h_word = String::from_str("h");
        proof {
            reveal_strlit("help");
            reveal_strlit("h");
        }
        let mut k: usize = 0;
        while k < node.valid_aliases.len()
            invariant
                self.wf(),
                self@ == nodes,
                !has_node(nodes, node@.name),
                node@.aliases.len() > 0,
                k <= node.valid_aliases.len(),
                help_suffix == ends_with_spec(node@.name, " help"@),
                help_word@ == "help"@,
                h_word@ == "h"@,
                alias_error(node@.name, node@.aliases, 0) == alias_error(
                    node@.name,
                    node@.aliases,
                    k as int,
                ),
            decreases node.valid_aliases.len() - k,
        {
            let a = &node.valid_aliases[k];
            assert(a@ == node@.aliases[k as int]);
            if contains_char(a.as_str(), ' ') {
                let mut m = String::from_str(
                    "Command spec node aliases cannot contain spaces, invalid alias: ",
                );
                m.append(a.as_str());
                return Err(fatal(m));
            }
            if !help_suffix && (*a == help_word || *a == h_word) {
                proof {
                    assert(help_aliases()[0] == "help"@);
                    assert(help_aliases()[1] == "h"@);
                    if a@ == "help"@ {
                        assert(help_aliases().contains(a@));
                    } else {
                        assert(help_aliases().contains(a@));
                    }
                }
                let mut m = String::from_str("Command spec node aliases cannot be '");
                m.append(a.as_str());
                m.append("', this is a reserved help alias");
                return Err(fatal(m));
            }
            proof {
                if help_aliases().contains(a@) {
                    let w = choose|w: int| 0 <= w < 2 && help_aliases()[w] == a@;
                    assert(w == 0 || w == 1);
                }
            }
            k = k + 1;
        }
        if ends_with(node.parent.as_str(), " help") {
            let mut m = String::from_str("Parent command ");
            m.append(node.parent.as_str());
            m.append(" cannot be a help command, or command cant end with reserved ' help' suffix");
            return Err(fatal(m));
        }
        let pi = match self.find(node.parent.as_str()) {
            Some(i) => i,
            None => {
                let mut m = String::from_str("Parent node ");
                m.append(node.parent.as_str());
                m.append(" not found when adding command spec node");
                return Err(fatal(m));
            },
        };
        proof {
            lemma_index_of(nodes, node@.parent, pi as int);
        }
        let mut c: usize = 0;
        while c < self.nodes[pi].children.len()
            invariant
                self.wf(),
                self@ == nodes,
                !has_node(nodes, node@.name),
                node@.aliases.len() > 0,
                alias_error(node@.name, node@.aliases, 0) is None,
                !ends_with_spec(node@.parent, " help"@),
                has_node(nodes, node@.parent),
                pi < nodes.len(),
                pi == index_of(nodes, node@.parent),
                c <= nodes[pi as int].children.len(),
                sibling_clash(nodes, nodes[pi as int].children, 0, node@.aliases) == sibling_clash(
                    nodes,
                    nodes[pi as int].children,
                    c as int,
                    node@.aliases,
                ),
            decreases nodes[pi as int].children.len() - c,
        {
            proof {
                assert(has_node(nodes, nodes[pi as int].children[c as int]));
            }
            let child = match self.get(self.nodes[pi].children[c].as_str()) {
                Some(n) => n,
                None => {
                    proof {
                        assert(false);
                    }
                    return Err(fatal(String::new()));
                },
            };
            let mut j: usize = 0;
            while j < node.valid_aliases.len()
                invariant
                    self.wf(),
                    self@ == nodes,
                    !has_node(nodes, node@.name),
                    node@.aliases.len() > 0,
                    alias_error(node@.name, node@.aliases, 0) is None,
                    !ends_with_spec(node@.parent, " help"@),
                    has_node(nodes, node@.parent),
                    pi < nodes.len(),
                    pi == index_of(nodes, node@.parent),
                    c < nodes[pi as int].children.len(),
                    child@ == nodes[index_of(nodes, nodes[pi as int].children[c as int])],
                    sibling_clash(nodes, nodes[pi as int].children, 0, node@.aliases) == sibling_clash(
                        nodes,
                        nodes[pi as int].children,
                        c as int,
                        node@.aliases,
                    ),
                    j <= node.valid_aliases.len(),
                    shared_alias(child@.aliases, node@.aliases, 0) == shared_alias(
                        child@.aliases,
                        node@.aliases,
                        j as int,
                    ),
                decreases node.valid_aliases.len() - j,
            {
                if child.has_alias(&node.valid_aliases[j]) {
                    let mut m = String::from_str("Parent node ");
                    m.append(self.nodes[pi].first_alias().as_str());
                    m.append(" already has a child with alias ");
                    m.append(node.valid_aliases[j].as_str());
                    m.append(", this should not be possible please report this bug");
                    return Err(fatal(m));
                }
                j = j + 1;
            }
            c = c + 1;
        }
        if self.nodes[pi].call_type == CommandCallType::Args {
            let mut m = String::from_str("Parent node ");
            m.append(self.nodes[pi].first_alias().as_str());
            m.append(
                " is an args command, it cannot have children, this should not be possible please report this bug",
            );
            return Err(fatal(m));
        }
        proof {
            lemma_after_insert(nodes, node@);
        }
        let ghost exec_before = self.nodes@;
        let ghost nv = node@;
        let name_copy = node.name.clone();
        self.nodes.push(node);
        self.nodes[pi].children.push(name_copy);
        proof {
            let m = after_insert(nodes, nv);
            assert(self.nodes@.len() == exec_before.len() + 1);
            assert(views(self.nodes@[pi as int].children@) =~= nodes[pi as int].children.push(nv.name));
            assert(self@[pi as int] == m[pi as int]);
            assert(self@[exec_before.len() as int] == m[exec_before.len() as int]);
            assert forall|q: int| 0 <= q < m.len() implies self@[q] == m[q] by {
                if q != pi && q < exec_before.len() {
                    assert(self.nodes@[q] == exec_before[q]);
                }
            }
            assert(self@ =~= m);
            assert(insert_error(nodes, nv.name, nv.aliases, nv.parent) is None);
            lemma_no_sibling_clash(nodes, nodes[pi as int].children, 0, nv.aliases);
            lemma_after_insert_siblings(nodes, nv);
            lemma_after_insert_args(nodes, nv);
        }
        Ok(())
    }
}


/// Owned copies of string slices.
fn to_strings(v: Vec<&str>) -> (r: Vec<String>)
    ensures
        views(r@) == str_views(v@),
{
    let mut r: Vec<String> = Vec::new();
    let mut i: usize = 0;
    while i < v.len()
        invariant
            i <= v.len(),
            views(r@) == str_views(v@).subrange(0, i as int),
        decreases v.len() - i,
    {
        let s = String::from_str(v[i]);
        let ghost before_v = views(r@);
        r.push(s);
        assert(views(r@) =~= before_v.push(s@));
        assert(str_views(v@).subrange(0, i + 1) =~= str_views(v@).subrange(0, i as int).push(
            v@[i as int]@,
        ));
        i = i + 1;
    }
    assert(views(r@) =~= str_views(v@));
    r
}

impl<H> CommandSpec<H> {
    /// Whether the node at `pi` has a child named `name`.
    fn has_child_named(&self, pi: usize, name: &String) -> (b: bool)
        requires
            pi < self@.len(),
        ensures
            b == self@[pi as int].children.contains(name@),
    {
        let ghost ch = self@[pi as int].children;
        let mut c: usize = 0;
        while c < self.nodes[pi].children.len()
            invariant
                pi < self@.len(),
                ch == self@[pi as int].children,
                c <= ch.len(),
                forall|w: int| 0 <= w < c ==> ch[w] != name@,
            decreases ch.len() - c,
        {
            if self.nodes[pi].children[c] == *name {
                assert(ch[c as int] == name@);
                return true;
            }
            c = c + 1;
        }
        false
    }
}

impl<H> CommandSpec<H> {
    /// Add a command named `name` under `parent` (the root when `None`);
    /// see [`add_spec`]. Every failure is fatal and leaves no tree.
    #[verifier::spinoff_prover]
    #[verifier::rlimit(40)]
    pub fn add(
        self,
        name: &str,
        valid_aliases: Vec<&str>,
        help: &str,
        handler: Option<H>,
        call_type: CommandCallType,
        parent: Option<&str>,
    ) -> (r: Result<CommandSpec<H>, Failure>)
        requires
            self.wf(),
        ensures
            match add_spec(
                self@,
                name@,
                str_views(valid_aliases@),
                help@,
                handler,
                call_type,
                parent_or_root(parent),
            ) {
                Ok(m) => r matches Ok(s) && s.wf() && s@ == m,
                Err(e) => r matches Err(f) && f.is(FailureType::Fatal, e),
            },
            r matches Ok(s) ==> (aliases_nonempty(self@) && (forall|t: int|
                0 <= t < valid_aliases@.len() ==> (#[trigger] valid_aliases@[t])@.len() > 0)
                ==> aliases_nonempty(s@)),
    {
        let ghost nodes = self@;
        let mut this = self;
        let aliases = to_strings(valid_aliases);
        let parent: &str = match parent {
            Some(p) => p,
            None => "root",
        };
        let node = CommandSpecNode::new(
            String::from_str(name),
            aliases,
            String::from_str(help),
            handler,
            call_type,
            String::from_str(parent),
        );
        let ghost node_view = node@;
        match this.insert_node(node) {
            Ok(()) => {},
            Err(f) => {
                return Err(f);
            },
        }
        let ghost m1 = this@;
        proof {
            lemma_after_insert(nodes, node_view);
        }
        let mut help_name = String::from_str(parent);
        help_name.append(" help");
        let pi = match this.find(parent) {
            Some(i) => i,
            None => {
                proof {
                    assert(false);
                }
                return Err(fatal(String::new()));
            },
        };
        proof {
            lemma_index_of(m1, parent@, pi as int);
        }
        let present = this.has_child_named(pi, &help_name);
        if !present {
            let mut help_text = String::from_str(" : Show help for ");
            help_text.append(name);
            help_text.append(" command");
            let help_aliases_vec = vec![String::from_str("help"), String::from_str("h")];
            assert(views(help_aliases_vec@) =~= help_aliases());
            let help_node = CommandSpecNode::new(
                help_name,
                help_aliases_vec,
                help_text,
                None,
                CommandCallType::NoArgs,
                String::from_str(parent),
            );
            match this.insert_node(help_node) {
                Ok(()) => {},
                Err(f) => {
                    return Err(f);
                },
            }
        }
        proof {
            let al = str_views(valid_aliases@);
            if aliases_nonempty(nodes) && (forall|t: int|
                0 <= t < valid_aliases@.len() ==> (#[trigger] valid_aliases@[t])@.len() > 0) {
                assert forall|t: int| 0 <= t < al.len() implies (#[trigger] al[t]).len() > 0 by {
                    assert(al[t] == valid_aliases@[t]@);
                }
                lemma_add_keeps_aliases_nonempty(
                    nodes,
                    name@,
                    al,
                    help@,
                    handler,
                    call_type,
                    parent@,
                );
            }
        }
        Ok(this)
    }
}

} // verus!
