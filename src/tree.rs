//! The command tree and its flattening into command paths.
use vstd::prelude::*;

use crate::text::strings_view;
use vstd::string::StringExecFns;

verus! {

/// A command: its name, its subcommands and the names of its positional
/// arguments, both in declaration order.
#[derive(Debug)]
pub struct CommandSpec {
    pub name: String,
    pub subcommands: Vec<CommandSpec>,
    pub positionals: Vec<String>,
}

impl CommandSpec {
    /// A command with no subcommands and no arguments.
    pub fn new(name: &str) -> (r: CommandSpec)
        ensures
            r.name@ == name@,
            r.subcommands@.len() == 0,
            r.positionals@.len() == 0,
    {
        CommandSpec { name: String::from_str(name), subcommands: Vec::new(), positionals: Vec::new() }
    }

    /// The command with `sub` as its last subcommand.
    pub fn subcommand(self, sub: CommandSpec) -> (r: CommandSpec)
        ensures
            r.name == self.name,
            r.subcommands@ == self.subcommands@.push(sub),
            r.positionals == self.positionals,
    {
        let mut r = self;
        r.subcommands.push(sub);
        r
    }

    /// The command with a last positional argument named `name`.
    pub fn arg(self, name: &str) -> (r: CommandSpec)
        ensures
            r.name == self.name,
            r.subcommands == self.subcommands,
            strings_view(r.positionals@) == strings_view(self.positionals@).push(name@),
    {
        let mut r = self;
        r.positionals.push(String::from_str(name));
        assert(strings_view(r.positionals@) =~= strings_view(self.positionals@).push(name@));
        r
    }
}

/// One item of a command path, as the specifications see it.
pub enum PathItem {
    /// A fixed token: a subcommand name or `help`.
    Literal(Seq<char>),
    /// A positional argument slot, by name.
    Placeholder(Seq<char>),
}

/// One item of a command path.
#[derive(Clone, Debug)]
pub enum CommandItem {
    Command(String),
    Arg(String),
}

impl View for CommandItem {
    type V = PathItem;

    open spec fn view(&self) -> PathItem {
        match self {
            CommandItem::Command(name) => PathItem::Literal(name@),
            CommandItem::Arg(name) => PathItem::Placeholder(name@),
        }
    }
}

/// A walk from the root of the tree to a subcommand or an argument slot.
#[derive(Clone, Debug)]
pub struct CommandLine(pub Vec<CommandItem>);

impl View for CommandLine {
    type V = Seq<PathItem>;

    open spec fn view(&self) -> Seq<PathItem> {
        items_view(self.0@)
    }
}

pub open spec fn items_view(v: Seq<CommandItem>) -> Seq<PathItem> {
    v.map_values(|i: CommandItem| i@)
}

pub open spec fn lines_view(v: Seq<CommandLine>) -> Seq<Seq<PathItem>> {
    v.map_values(|l: CommandLine| l@)
}

pub open spec fn help_name() -> Seq<char> {
    seq!['h', 'e', 'l', 'p']
}

/// The placeholders for a list of argument names.
pub open spec fn arg_items(args: Seq<String>) -> Seq<PathItem> {
    args.map_values(|a: String| PathItem::Placeholder(a@))
}

/// `line` followed by the first argument, then by the first two, and so on up
/// to the first `n`.
pub open spec fn arg_paths(line: Seq<PathItem>, args: Seq<String>, n: int) -> Seq<Seq<PathItem>>
    decreases n,
{
    if n <= 0 {
        Seq::empty()
    } else {
        arg_paths(line, args, n - 1).push(line + arg_items(args).take(n))
    }
}

/// The paths of a command reached by `prefix`: `help` at its level, then for
/// each subcommand its own path followed by the paths below it (or, for a
/// subcommand without subcommands, those of its arguments).
pub open spec fn flatten(node: CommandSpec, prefix: Seq<PathItem>) -> Seq<Seq<PathItem>>
    decreases node, node.subcommands@.len() + 1,
{
    seq![prefix.push(PathItem::Literal(help_name()))] + flatten_children(
        node,
        prefix,
        node.subcommands@.len() as int,
    )
}

/// The paths that the first `n` subcommands of `node` contribute.
pub open spec fn flatten_children(node: CommandSpec, prefix: Seq<PathItem>, n: int) -> Seq<
    Seq<PathItem>,
>
    decreases node, n,
{
    if n <= 0 || n > node.subcommands@.len() {
        Seq::empty()
    } else {
        let child = node.subcommands@[n - 1];
        let line = prefix.push(PathItem::Literal(child.name@));
        let below = if child.subcommands@.len() > 0 {
            flatten(child, line)
        } else {
            arg_paths(line, child.positionals@, child.positionals@.len() as int)
        };
        flatten_children(node, prefix, n - 1) + seq![line] + below
    }
}

/// The names of the literals of a path, in order, placeholders left out.
pub open spec fn literal_names(path: Seq<PathItem>) -> Seq<Seq<char>>
    decreases path.len(),
{
    if path.len() == 0 {
        Seq::empty()
    } else {
        let rest = literal_names(path.drop_last());
        match path.last() {
            PathItem::Literal(name) => rest.push(name),
            PathItem::Placeholder(_) => rest,
        }
    }
}

/// `names` leads from `node` down through subcommands of those names.
pub open spec fn is_node_path(node: CommandSpec, names: Seq<Seq<char>>) -> bool
    decreases node,
{
    names.len() == 0 || exists|i: int|
        0 <= i < node.subcommands@.len() && (#[trigger] node.subcommands@[i]).name@ == names[0]
            && is_node_path(node.subcommands@[i], names.drop_first())
}

/// `names` leads from `node` to a command, or to the `help` of a command.
pub open spec fn reaches_command(node: CommandSpec, names: Seq<Seq<char>>) -> bool {
    is_node_path(node, names) || (names.len() > 0 && names.last() == help_name() && is_node_path(
        node,
        names.drop_last(),
    ))
}

proof fn lemma_literal_names_concat(a: Seq<PathItem>, b: Seq<PathItem>)
    ensures
        literal_names(a + b) == literal_names(a) + literal_names(b),
    decreases b.len(),
{
    if b.len() == 0 {
        assert(a + b =~= a);
        assert(literal_names(a) + literal_names(b) =~= literal_names(a));
    } else {
        lemma_literal_names_concat(a, b.drop_last());
        assert((a + b).drop_last() =~= a + b.drop_last());
        assert((a + b).last() == b.last());
        match b.last() {
            PathItem::Literal(name) => {
                assert(literal_names(a) + literal_names(b.drop_last()).push(name) =~= (
                literal_names(a) + literal_names(b.drop_last())).push(name));
            },
            PathItem::Placeholder(_) => {},
        }
    }
}

proof fn lemma_literal_names_of_args(args: Seq<String>, n: int)
    requires
        0 <= n <= args.len(),
    ensures
        literal_names(arg_items(args).take(n)) == Seq::<Seq<char>>::empty(),
    decreases n,
{
    if n > 0 {
        lemma_literal_names_of_args(args, n - 1);
        assert(arg_items(args).take(n).drop_last() =~= arg_items(args).take(n - 1));
    } else {
        assert(literal_names(arg_items(args).take(n)) =~= Seq::<Seq<char>>::empty());
    }
}

proof fn lemma_arg_paths_len(line: Seq<PathItem>, args: Seq<String>, n: int)
    requires
        0 <= n,
    ensures
        arg_paths(line, args, n).len() == n,
    decreases n,
{
    if n > 0 {
        lemma_arg_paths_len(line, args, n - 1);
    }
}

proof fn lemma_arg_paths_index(line: Seq<PathItem>, args: Seq<String>, n: int, j: int)
    requires
        0 <= j < n,
    ensures
        arg_paths(line, args, n)[j] == line + arg_items(args).take(j + 1),
    decreases n,
{
    lemma_arg_paths_len(line, args, n - 1);
    if j < n - 1 {
        lemma_arg_paths_index(line, args, n - 1, j);
    }
}

proof fn lemma_literal_names_single(name: Seq<char>)
    ensures
        literal_names(seq![PathItem::Literal(name)]) == seq![name],
{
    let one = seq![PathItem::Literal(name)];
    assert(one.drop_last() =~= Seq::<PathItem>::empty());
    assert(literal_names(Seq::<PathItem>::empty()) =~= Seq::<Seq<char>>::empty());
    assert(Seq::<Seq<char>>::empty().push(name) =~= seq![name]);
}

proof fn lemma_reaches_child(node: CommandSpec, i: int, names: Seq<Seq<char>>)
    requires
        0 <= i < node.subcommands@.len(),
        reaches_command(node.subcommands@[i], names),
    ensures
        reaches_command(node, seq![node.subcommands@[i].name@] + names),
{
    let child = node.subcommands@[i];
    let full = seq![child.name@] + names;
    if is_node_path(child, names) {
        assert(full.drop_first() =~= names);
        assert(is_node_path(node, full));
    } else {
        let head = seq![child.name@] + names.drop_last();
        assert(head.drop_first() =~= names.drop_last());
        assert(is_node_path(node, head));
        assert(full.drop_last() =~= head);
    }
}

proof fn lemma_flatten_reaches(node: CommandSpec, prefix: Seq<PathItem>, k: int)
    requires
        0 <= k < flatten(node, prefix).len(),
    ensures
        flatten(node, prefix)[k].len() >= prefix.len(),
        flatten(node, prefix)[k].take(prefix.len() as int) == prefix,
        reaches_command(node, literal_names(flatten(node, prefix)[k].skip(prefix.len() as int))),
    decreases node, node.subcommands@.len() + 1,
{
    let path = flatten(node, prefix)[k];
    if k == 0 {
        let help = PathItem::Literal(help_name());
        assert(path == prefix.push(help));
        assert(path.take(prefix.len() as int) =~= prefix);
        assert(path.skip(prefix.len() as int) =~= seq![help]);
        lemma_literal_names_single(help_name());
        assert(literal_names(seq![help]).drop_last() =~= Seq::<Seq<char>>::empty());
    } else {
        lemma_children_reach(node, prefix, node.subcommands@.len() as int, k - 1);
    }
}

proof fn lemma_children_reach(node: CommandSpec, prefix: Seq<PathItem>, n: int, k: int)
    requires
        0 <= n <= node.subcommands@.len(),
        0 <= k < flatten_children(node, prefix, n).len(),
    ensures
        flatten_children(node, prefix, n)[k].len() >= prefix.len(),
        flatten_children(node, prefix, n)[k].take(prefix.len() as int) == prefix,
        reaches_command(
            node,
            literal_names(flatten_children(node, prefix, n)[k].skip(prefix.len() as int)),
        ),
    decreases node, n,
{
    let all = flatten_children(node, prefix, n);
    let path = all[k];
    let before = flatten_children(node, prefix, n - 1);
    let child = node.subcommands@[n - 1];
    let lit = PathItem::Literal(child.name@);
    let line = prefix.push(lit);
    let plen = prefix.len() as int;
    if k < before.len() {
        lemma_children_reach(node, prefix, n - 1, k);
    } else {
        assert(path.take(plen) =~= prefix) by {
            if k == before.len() {
                assert(path == line);
            } else if child.subcommands@.len() > 0 {
                lemma_flatten_reaches(child, line, k - before.len() - 1);
                assert(path.take(plen) =~= path.take(plen + 1).take(plen));
            } else {
                lemma_arg_paths_len(line, child.positionals@, child.positionals@.len() as int);
                lemma_arg_paths_index(
                    line,
                    child.positionals@,
                    child.positionals@.len() as int,
                    k - before.len() - 1,
                );
            }
        }
        let rest = path.skip(plen + 1);
        if k == before.len() {
            assert(path == line);
            assert(path.skip(plen) =~= seq![lit]);
            lemma_literal_names_single(child.name@);
            assert(reaches_command(child, Seq::<Seq<char>>::empty()));
            lemma_reaches_child(node, n - 1, Seq::<Seq<char>>::empty());
            assert(seq![child.name@] + Seq::<Seq<char>>::empty() =~= seq![child.name@]);
        } else {
            let j = k - before.len() - 1;
            if child.subcommands@.len() > 0 {
                lemma_flatten_reaches(child, line, j);
                assert(path.take(plen + 1) == line);
            } else {
                lemma_arg_paths_len(line, child.positionals@, child.positionals@.len() as int);
                lemma_arg_paths_index(line, child.positionals@, child.positionals@.len() as int, j);
                assert(path == line + arg_items(child.positionals@).take(j + 1));
                assert(path.take(plen + 1) =~= line);
                assert(rest =~= arg_items(child.positionals@).take(j + 1));
                lemma_literal_names_of_args(child.positionals@, j + 1);
                assert(is_node_path(child, Seq::<Seq<char>>::empty()));
            }
            assert(path.take(plen + 1)[plen] == line[plen]);
            assert(path[plen] == lit);
            assert(path.skip(plen) =~= seq![lit] + rest);
            lemma_literal_names_concat(seq![lit], rest);
            lemma_literal_names_single(child.name@);
            lemma_reaches_child(node, n - 1, literal_names(rest));
        }
    }
}

/// Every path of a flattened tree, with its placeholders left out, names a
/// command of the tree, or the `help` of one.
pub proof fn lemma_paths_reach_commands(root: CommandSpec, k: int)
    requires
        0 <= k < flatten(root, Seq::empty()).len(),
    ensures
        reaches_command(root, literal_names(flatten(root, Seq::empty())[k])),
{
    lemma_flatten_reaches(root, Seq::empty(), k);
    assert(flatten(root, Seq::empty())[k].skip(0) =~= flatten(root, Seq::empty())[k]);
}

/// A copy of a path item.
pub(crate) fn copy_item(item: &CommandItem) -> (r: CommandItem)
    ensures
        r@ == item@,
{
    match item {
        CommandItem::Command(name) => CommandItem::Command(name.clone()),
        CommandItem::Arg(name) => CommandItem::Arg(name.clone()),
    }
}

/// A copy of a sequence of path items.
pub(crate) fn copy_items(items: &Vec<CommandItem>) -> (r: Vec<CommandItem>)
    ensures
        items_view(r@) == items_view(items@),
{
    let mut r: Vec<CommandItem> = Vec::new();
    let mut i: usize = 0;
    while i < items.len()
        invariant
            i <= items@.len(),
            items_view(r@) == items_view(items@.take(i as int)),
        decreases items@.len() - i,
    {
        let ghost prev = r@;
        r.push(copy_item(&items[i]));
        assert(items@.take(i + 1) =~= items@.take(i as int).push(items@[i as int]));
        assert(items_view(r@) =~= items_view(prev).push(items@[i as int]@));
        assert(items_view(items@.take(i + 1)) =~= items_view(items@.take(i as int)).push(
            items@[i as int]@,
        ));
        i = i + 1;
    }
    assert(items@.take(i as int) =~= items@);
    r
}

} // verus!
