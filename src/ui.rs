//! The hint and completion engine over a flattened command tree.
use vstd::prelude::*;

use crate::text::{
    ends_in_white_space, ends_with_whitespace, has_prefix, last_occurrence, rfind, shell_split,
    starts_with, strings_view, strip_prefix, tokenize,
};
use crate::tree::{
    arg_items, arg_paths, copy_items, flatten, flatten_children, help_name, items_view,
    lines_view, CommandItem, CommandLine, CommandSpec, PathItem,
};
use vstd::string::StringExecFns;
use vstd::utf8::{
    decode_utf8, encode_utf8, encode_utf8_decode_utf8, encode_utf8_valid_utf8, is_char_boundary,
    valid_utf8_split,
};

verus! {

/// A typed token fits a path item: a literal must equal it, a placeholder
/// takes any token.
pub open spec fn item_matches(item: PathItem, token: Seq<char>) -> bool {
    match item {
        PathItem::Literal(name) => name == token,
        PathItem::Placeholder(_) => true,
    }
}

/// `path` has exactly one item after the first `limit`, and those fit the
/// first `limit` tokens.
pub open spec fn path_matches(path: Seq<PathItem>, tokens: Seq<Seq<char>>, limit: int) -> bool {
    &&& path.len() == limit + 1
    &&& forall|k: int| 0 <= k < limit ==> item_matches(#[trigger] path[k], tokens[k])
}

/// The paths that match, in their order.
pub open spec fn matches_of(paths: Seq<Seq<PathItem>>, tokens: Seq<Seq<char>>, limit: int) -> Seq<
    Seq<PathItem>,
> {
    paths.filter(|p: Seq<PathItem>| path_matches(p, tokens, limit))
}

/// The item at `limit` is a literal whose name starts with `last`.
pub open spec fn offers(path: Seq<PathItem>, limit: int, last: Seq<char>) -> bool {
    &&& 0 <= limit < path.len()
    &&& path[limit] is Literal
    &&& has_prefix(path[limit]->Literal_0, last)
}

/// The name of the item at `limit`, where that item is a literal.
pub open spec fn literal_at(path: Seq<PathItem>, limit: int) -> Seq<char> {
    path[limit]->Literal_0
}

/// The names of the literals that follow `tokens` in the matching paths and
/// start with `last`, in path order.
pub open spec fn suggestions(
    paths: Seq<Seq<PathItem>>,
    tokens: Seq<Seq<char>>,
    limit: int,
    last: Seq<char>,
) -> Seq<Seq<char>> {
    matches_of(paths, tokens, limit).filter(|p: Seq<PathItem>| offers(p, limit, last)).map_values(
        |p: Seq<PathItem>| literal_at(p, limit),
    )
}

pub open spec fn refs_view(v: Seq<&CommandLine>) -> Seq<Seq<PathItem>> {
    v.map_values(|l: &CommandLine| l@)
}

pub open spec fn strs_view(v: Seq<&str>) -> Seq<Seq<char>> {
    v.map_values(|s: &str| s@)
}

/// An inline hint: the text shown after the cursor, and the text that
/// accepting the hint inserts, where there is any.
#[derive(Debug, Clone, PartialEq, Eq)]
pub struct UiHint(pub String, pub Option<String>);

impl View for UiHint {
    type V = (Seq<char>, Option<Seq<char>>);

    open spec fn view(&self) -> (Seq<char>, Option<Seq<char>>) {
        (
            self.0@,
            match self.1 {
                Some(s) => Some(s@),
                None => None,
            },
        )
    }
}

impl UiHint {
    /// The text shown after the cursor.
    pub fn display(&self) -> (r: &str)
        ensures
            r@ == self@.0,
    {
        self.0.as_str()
    }

    /// The text inserted when the hint is accepted, if any.
    pub fn completion(&self) -> (r: Option<&str>)
        ensures
            r matches Some(c) ==> self@.1 == Some(c@),
            r is None ==> self@.1 is None,
    {
        match &self.1 {
            Some(c) => Some(c.as_str()),
            None => None,
        }
    }
}

pub open spec fn hint_view(h: Option<UiHint>) -> Option<(Seq<char>, Option<Seq<char>>)> {
    match h {
        Some(x) => Some(x@),
        None => None,
    }
}

/// `<name>`.
pub open spec fn angled(name: Seq<char>) -> Seq<char> {
    seq!['<'] + name + seq!['>']
}

/// The hint for a line already split into `tokens`. After whitespace (or on
/// an empty line) it names the argument expected next, where the first
/// matching path ends in a placeholder; otherwise it is the rest of the first
/// literal that continues the last, partly typed token.
pub open spec fn hint_of(paths: Seq<Seq<PathItem>>, line: Seq<char>, tokens: Seq<Seq<char>>) -> Option<
    (Seq<char>, Option<Seq<char>>),
> {
    if line.len() == 0 || ends_in_white_space(line) {
        let limit = tokens.len() as int;
        let ms = matches_of(paths, tokens, limit);
        if ms.len() > 0 && ms[0][limit] is Placeholder {
            Some((angled(ms[0][limit]->Placeholder_0), None))
        } else {
            None
        }
    } else if tokens.len() == 0 {
        None
    } else {
        let limit = tokens.len() - 1;
        let last = tokens[limit];
        let ss = suggestions(paths, tokens, limit, last);
        if ss.len() == 0 {
            None
        } else {
            let rest = ss[0].skip(last.len() as int);
            Some((rest, Some(rest)))
        }
    }
}

/// The hint for a raw line: none where the line does not split into words.
pub open spec fn hint_outcome(paths: Seq<Seq<PathItem>>, line: Seq<char>) -> Option<
    (Seq<char>, Option<Seq<char>>),
> {
    match shell_split(line) {
        Some(tokens) => hint_of(paths, line, tokens),
        None => None,
    }
}

/// The names of the literals at `limit` in `ms`, in order.
pub open spec fn next_literals(ms: Seq<Seq<PathItem>>, limit: int) -> Seq<Seq<char>> {
    ms.filter(|p: Seq<PathItem>| p[limit] is Literal).map_values(
        |p: Seq<PathItem>| literal_at(p, limit),
    )
}

/// The completion for a line already split into `tokens`: where it starts,
/// as a byte index into the line, and every candidate. After whitespace (or
/// on an empty line) the candidates are the literals that may come next and
/// replace nothing; otherwise they are the literals that continue the last
/// token, which is replaced from its last occurrence in the line on.
pub open spec fn completion_of(
    paths: Seq<Seq<PathItem>>,
    line: Seq<char>,
    tokens: Seq<Seq<char>>,
) -> Option<(int, Seq<Seq<char>>)> {
    if line.len() == 0 || ends_in_white_space(line) {
        let limit = tokens.len() as int;
        Some((encode_utf8(line).len() as int, next_literals(matches_of(paths, tokens, limit), limit)))
    } else if tokens.len() == 0 {
        None
    } else {
        let limit = tokens.len() - 1;
        let last = tokens[limit];
        match last_occurrence(encode_utf8(line), encode_utf8(last)) {
            Some(i) => Some((i, suggestions(paths, tokens, limit, last))),
            None => None,
        }
    }
}

/// The completion for the part of a raw line before byte `pos`: none where
/// `pos` is past the end or inside a character, or where that part does not
/// split into words.
pub open spec fn complete_outcome(paths: Seq<Seq<PathItem>>, line: Seq<char>, pos: int) -> Option<
    (int, Seq<Seq<char>>),
> {
    let bytes = encode_utf8(line);
    if 0 <= pos <= bytes.len() && is_char_boundary(bytes, pos) {
        let head = decode_utf8(bytes.take(pos));
        match shell_split(head) {
            Some(tokens) => completion_of(paths, head, tokens),
            None => None,
        }
    } else {
        None
    }
}

pub open spec fn completion_view(r: Option<(usize, Vec<String>)>) -> Option<(int, Seq<Seq<char>>)> {
    match r {
        Some((i, v)) => Some((i as int, strings_view(v@))),
        None => None,
    }
}

/// Hints keep no state: two hints for the same line from the same engine
/// are the same.
pub proof fn lemma_hint_repeatable(
    ui: &Ui,
    line: Seq<char>,
    first: Option<UiHint>,
    second: Option<UiHint>,
)
    requires
        hint_view(first) == hint_outcome(ui.paths(), line),
        hint_view(second) == hint_outcome(ui.paths(), line),
    ensures
        hint_view(first) == hint_view(second),
{
}

/// Completions keep no state: two completions for the same line and cursor
/// from the same engine are the same.
pub proof fn lemma_complete_repeatable(
    ui: &Ui,
    line: Seq<char>,
    pos: int,
    first: Option<(usize, Vec<String>)>,
    second: Option<(usize, Vec<String>)>,
)
    requires
        completion_view(first) == complete_outcome(ui.paths(), line, pos),
        completion_view(second) == complete_outcome(ui.paths(), line, pos),
    ensures
        completion_view(first) == completion_view(second),
{
}

/// Every path that matches `limit` tokens has exactly `limit + 1` items.
pub proof fn lemma_matches_have_one_more_item(
    paths: Seq<Seq<PathItem>>,
    tokens: Seq<Seq<char>>,
    limit: int,
    i: int,
)
    requires
        0 <= i < matches_of(paths, tokens, limit).len(),
    ensures
        matches_of(paths, tokens, limit)[i].len() == limit + 1,
{
    paths.lemma_filter_pred(|p: Seq<PathItem>| path_matches(p, tokens, limit), i);
}

proof fn lemma_filter_step<A>(s: Seq<A>, pred: spec_fn(A) -> bool, i: int)
    requires
        0 <= i < s.len(),
    ensures
        s.take(i + 1).filter(pred) == (if pred(s[i]) {
            s.take(i).filter(pred).push(s[i])
        } else {
            s.take(i).filter(pred)
        }),
{
    reveal(Seq::filter);
    assert(s.take(i + 1).drop_last() =~= s.take(i));
}

proof fn lemma_filter_empty<A>(s: Seq<A>, pred: spec_fn(A) -> bool)
    ensures
        s.take(0).filter(pred) == Seq::<A>::empty(),
{
    reveal(Seq::filter);
    assert(s.take(0) =~= Seq::<A>::empty());
}

/// The engine: every path of a command tree, in the order of a depth-first
/// walk, built once and read thereafter.
pub struct Ui {
    commands: Vec<CommandLine>,
}

impl Ui {
    /// The paths the engine searches.
    pub closed spec fn paths(&self) -> Seq<Seq<PathItem>> {
        lines_view(self.commands@)
    }

    /// An engine for the tree rooted at `command`.
    pub fn new(command: CommandSpec) -> (r: Ui)
        ensures
            r.paths() == flatten(command, Seq::empty()),
    {
        let commands = Self::parse_command_tree(&command);
        Ui { commands }
    }

    /// Whether one path matches the first `limit` tokens.
    fn line_matches(line: &CommandLine, args: &[String], limit: usize) -> (r: bool)
        requires
            limit <= args@.len(),
        ensures
            r == path_matches(line@, strings_view(args@), limit as int),
    {
        let items = &line.0;
        if items.len() == 0 || items.len() - 1 != limit {
            return false;
        }
        let mut k: usize = 0;
        while k < limit
            invariant
                limit <= args@.len(),
                items@.len() == limit + 1,
                items == &line.0,
                k <= limit,
                forall|q: int|
                    0 <= q < k ==> item_matches(#[trigger] line@[q], strings_view(args@)[q]),
            decreases limit - k,
        {
            match &items[k] {
                CommandItem::Command(name) => {
                    if !(*name == args[k]) {
                        assert(!item_matches(line@[k as int], strings_view(args@)[k as int]));
                        return false;
                    }
                },
                CommandItem::Arg(_) => {},
            }
            k = k + 1;
        }
        true
    }

    /// The paths that have exactly one item after the first `limit`, those
    /// fitting the first `limit` tokens, in the engine's order.
    pub fn find_matches<'a>(&'a self, args: &[String], limit: usize) -> (r: Vec<&'a CommandLine>)
        requires
            limit <= args@.len(),
        ensures
            refs_view(r@) == matches_of(self.paths(), strings_view(args@), limit as int),
            forall|i: int| 0 <= i < r@.len() ==> (#[trigger] r@[i])@.len() == limit + 1,
    {
        let ghost pred = |p: Seq<PathItem>| path_matches(p, strings_view(args@), limit as int);
        let mut r: Vec<&'a CommandLine> = Vec::new();
        let mut i: usize = 0;
        proof {
            lemma_filter_empty(self.paths(), pred);
        }
        while i < self.commands.len()
            invariant
                limit <= args@.len(),
                i <= self.commands@.len(),
                pred == (|p: Seq<PathItem>| path_matches(p, strings_view(args@), limit as int)),
                refs_view(r@) == self.paths().take(i as int).filter(pred),
            decreases self.commands@.len() - i,
        {
            let line = &self.commands[i];
            proof {
                lemma_filter_step(self.paths(), pred, i as int);
            }
            let ghost prev = r@;
            if Self::line_matches(line, args, limit) {
                r.push(line);
                assert(refs_view(r@) =~= refs_view(prev).push(line@));
            }
            i = i + 1;
        }
        assert(self.paths().take(i as int) =~= self.paths());
        assert forall|i: int| 0 <= i < r@.len() implies (#[trigger] r@[i])@.len() == limit + 1 by {
            assert(refs_view(r@)[i] == r@[i]@);
            self.paths().lemma_filter_pred(pred, i);
        }
        r
    }

    /// The names of the literals that come next after the first `limit`
    /// tokens and start with `last_arg`, in the engine's order.
    pub fn find_matching_suggestions<'a>(
        &'a self,
        args: &[String],
        limit: usize,
        last_arg: &str,
    ) -> (r: Vec<&'a str>)
        requires
            limit <= args@.len(),
        ensures
            strs_view(r@) == suggestions(self.paths(), strings_view(args@), limit as int, last_arg@),
    {
        let matches = self.find_matches(args, limit);
        let ghost ms = refs_view(matches@);
        let ghost pred = |p: Seq<PathItem>| offers(p, limit as int, last_arg@);
        let ghost f = |p: Seq<PathItem>| literal_at(p, limit as int);
        let mut r: Vec<&'a str> = Vec::new();
        let mut j: usize = 0;
        proof {
            lemma_filter_empty(ms, pred);
        }
        while j < matches.len()
            invariant
                ms == refs_view(matches@),
                forall|i: int| 0 <= i < matches@.len() ==> (#[trigger] matches@[i])@.len() == limit + 1,
                j <= matches@.len(),
                pred == (|p: Seq<PathItem>| offers(p, limit as int, last_arg@)),
                f == (|p: Seq<PathItem>| literal_at(p, limit as int)),
                strs_view(r@) == ms.take(j as int).filter(pred).map_values(f),
            decreases matches@.len() - j,
        {
            let line = matches[j];
            proof {
                lemma_filter_step(ms, pred, j as int);
            }
            let ghost prev = r@;
            assert(line@.len() == limit + 1);
            match &line.0[limit] {
                CommandItem::Command(name) => {
                    if starts_with(name.as_str(), last_arg) {
                        r.push(name.as_str());
                        assert(ms[j as int] == line@);
                        assert(line@[limit as int] == PathItem::Literal(name@));
                        assert(pred(ms[j as int]));
                        assert(f(ms[j as int]) == name@);
                        let ghost fl = ms.take(j as int).filter(pred);
                        assert(ms.take(j + 1).filter(pred) == fl.push(ms[j as int]));
                        assert(fl.push(ms[j as int]).map_values(f) =~= fl.map_values(f).push(name@));
                        assert(strs_view(r@) =~= strs_view(prev).push(name@));
                    } else {
                        assert(!pred(ms[j as int]));
                    }
                },
                CommandItem::Arg(_) => {
                    assert(!pred(ms[j as int]));
                },
            }
            j = j + 1;
        }
        assert(ms.take(j as int) =~= ms);
        r
    }

    /// The hint for `line`, already split into `args`.
    pub fn hint_from_tokens(&self, line: &str, args: &Vec<String>) -> (r: Option<UiHint>)
        ensures
            hint_view(r) == hint_of(self.paths(), line@, strings_view(args@)),
    {
        if line.is_empty() || ends_with_whitespace(line) {
            let limit = args.len();
            let matches = self.find_matches(args.as_slice(), limit);
            if matches.len() == 0 {
                return None;
            }
            let command = matches[0];
            assert(command@.len() == limit + 1);
            match &command.0[limit] {
                CommandItem::Arg(name) => {
                    let mut text = String::from_str("<");
                    text.append(name.as_str());
                    text.append(">");
                    proof {
                        reveal_strlit("<");
                        reveal_strlit(">");
                    }
                    assert(text@ =~= angled(name@));
                    Some(UiHint(text, None))
                },
                CommandItem::Command(_) => None,
            }
        } else {
            if args.len() == 0 {
                return None;
            }
            let limit = args.len() - 1;
            let last = &args[limit];
            let found = self.find_matching_suggestions(args.as_slice(), limit, last.as_str());
            if found.len() == 0 {
                return None;
            }
            let ghost ms = matches_of(self.paths(), strings_view(args@), limit as int);
            let ghost pred = |p: Seq<PathItem>| offers(p, limit as int, last@);
            proof {
                ms.lemma_filter_pred(pred, 0);
                assert(strs_view(found@)[0] == found@[0]@);
            }
            match strip_prefix(found[0], last.as_str()) {
                Some(rest) => Some(UiHint(String::from_str(rest), Some(String::from_str(rest)))),
                None => None,
            }
        }
    }

    /// The hint for `line`: the rest of the next literal, or the name of the
    /// argument expected next.
    pub fn solve_hint(&self, line: &str) -> (r: Option<UiHint>)
        ensures
            hint_view(r) == hint_outcome(self.paths(), line@),
    {
        match tokenize(line) {
            Ok(args) => self.hint_from_tokens(line, &args),
            Err(_) => None,
        }
    }

    /// The completion for `line`, already split into `args`.
    pub fn complete_from_tokens(&self, line: &str, args: &Vec<String>) -> (r: Option<
        (usize, Vec<String>),
    >)
        ensures
            completion_view(r) == completion_of(self.paths(), line@, strings_view(args@)),
    {
        if line.is_empty() || ends_with_whitespace(line) {
            let limit = args.len();
            let matches = self.find_matches(args.as_slice(), limit);
            let ghost ms = refs_view(matches@);
            let ghost pred = |p: Seq<PathItem>| p[limit as int] is Literal;
            let ghost f = |p: Seq<PathItem>| literal_at(p, limit as int);
            let mut completions: Vec<String> = Vec::new();
            let mut j: usize = 0;
            proof {
                lemma_filter_empty(ms, pred);
            }
            while j < matches.len()
                invariant
                    ms == refs_view(matches@),
                    forall|i: int|
                        0 <= i < matches@.len() ==> (#[trigger] matches@[i])@.len() == limit + 1,
                    j <= matches@.len(),
                    pred == (|p: Seq<PathItem>| p[limit as int] is Literal),
                    f == (|p: Seq<PathItem>| literal_at(p, limit as int)),
                    strings_view(completions@) == ms.take(j as int).filter(pred).map_values(f),
                decreases matches@.len() - j,
            {
                let command = matches[j];
                proof {
                    lemma_filter_step(ms, pred, j as int);
                }
                let ghost prev = completions@;
                assert(command@.len() == limit + 1);
                assert(ms[j as int] == command@);
                match &command.0[limit] {
                    CommandItem::Command(name) => {
                        completions.push(name.clone());
                        let ghost fl = ms.take(j as int).filter(pred);
                        assert(fl.push(ms[j as int]).map_values(f) =~= fl.map_values(f).push(
                            name@,
                        ));
                        assert(strings_view(completions@) =~= strings_view(prev).push(name@));
                    },
                    CommandItem::Arg(_) => {},
                }
                j = j + 1;
            }
            assert(ms.take(j as int) =~= ms);
            let end = line.as_bytes().len();
            Some((end, completions))
        } else {
            if args.len() == 0 {
                return None;
            }
            let limit = args.len() - 1;
            let last = &args[limit];
            assert(strings_view(args@)[limit as int] == last@);
            let index = match rfind(line, last.as_str()) {
                Some(i) => i,
                None => return None,
            };
            let found = self.find_matching_suggestions(args.as_slice(), limit, last.as_str());
            let mut completions: Vec<String> = Vec::new();
            let mut j: usize = 0;
            while j < found.len()
                invariant
                    j <= found@.len(),
                    strings_view(completions@) == strs_view(found@).take(j as int),
                decreases found@.len() - j,
            {
                let ghost prev = completions@;
                completions.push(String::from_str(found[j]));
                assert(strings_view(completions@) =~= strings_view(prev).push(found@[j as int]@));
                assert(strs_view(found@).take(j + 1) =~= strs_view(found@).take(j as int).push(
                    found@[j as int]@,
                ));
                j = j + 1;
            }
            assert(strs_view(found@).take(j as int) =~= strs_view(found@));
            Some((index, completions))
        }
    }

    /// The completion for the part of `line` before byte `pos`: where the
    /// replaced text starts, and every candidate.
    pub fn solve_complete(&self, line: &str, pos: usize) -> (r: Option<(usize, Vec<String>)>)
        ensures
            completion_view(r) == complete_outcome(self.paths(), line@, pos as int),
    {
        proof {
            encode_utf8_valid_utf8(line@);
        }
        if pos > line.as_bytes().len() || !line.is_char_boundary(pos) {
            return None;
        }
        let (head, _) = line.split_at(pos);
        proof {
            encode_utf8_decode_utf8(head@);
            valid_utf8_split(encode_utf8(line@), pos as int);
            assert(head@ == decode_utf8(encode_utf8(line@).take(pos as int)));
        }
        match tokenize(head) {
            Ok(args) => self.complete_from_tokens(head, &args),
            Err(_) => None,
        }
    }

    fn parse_command_tree(command: &CommandSpec) -> (r: Vec<CommandLine>)
        ensures
            lines_view(r@) == flatten(*command, Seq::empty()),
    {
        let mut output: Vec<CommandLine> = Vec::new();
        let prefix: Vec<CommandItem> = Vec::new();
        assert(items_view(prefix@) =~= Seq::empty());
        Self::recursive_fill_command_tree(command, prefix, &mut output);
        assert(lines_view(Seq::<CommandLine>::empty()) =~= Seq::empty());
        assert(Seq::<Seq<PathItem>>::empty() + flatten(*command, Seq::empty()) =~= flatten(
            *command,
            Seq::empty(),
        ));
        output
    }

    fn recursive_fill_command_tree(
        parent: &CommandSpec,
        prefix: Vec<CommandItem>,
        output: &mut Vec<CommandLine>,
    )
        ensures
            lines_view(final(output)@) == lines_view(old(output)@) + flatten(
                *parent,
                items_view(prefix@),
            ),
        decreases parent,
    {
        let ghost pv = items_view(prefix@);
        let ghost start = lines_view(output@);
        let mut help_line = copy_items(&prefix);
        let help = String::from_str("help");
        proof {
            reveal_strlit("help");
        }
        assert(help@ =~= help_name());
        let ghost hprev = help_line@;
        help_line.push(CommandItem::Command(help));
        assert(items_view(help_line@) =~= items_view(hprev).push(PathItem::Literal(help_name())));
        output.push(CommandLine(help_line));
        assert(lines_view(output@) =~= start + seq![pv.push(PathItem::Literal(help_name()))]);
        let ghost base = lines_view(output@);
        assert(base + flatten_children(*parent, pv, 0) =~= base);

        let n = parent.subcommands.len();
        let mut i: usize = 0;
        while i < n
            invariant
                n == parent.subcommands@.len(),
                i <= n,
                pv == items_view(prefix@),
                lines_view(output@) == base + flatten_children(*parent, pv, i as int),
            decreases n - i,
        {
            let command = &parent.subcommands[i];
            let ghost mid = lines_view(output@);
            let mut line = copy_items(&prefix);
            line.push(CommandItem::Command(command.name.clone()));
            let ghost lv = pv.push(PathItem::Literal(command.name@));
            assert(items_view(line@) =~= lv);
            output.push(CommandLine(copy_items(&line)));
            assert(lines_view(output@) =~= mid + seq![lv]);
            if command.subcommands.len() > 0 {
                Self::recursive_fill_command_tree(command, line, output);
            } else {
                let m = command.positionals.len();
                let mut j: usize = 0;
                assert(lines_view(output@) =~= mid + seq![lv] + arg_paths(
                    lv,
                    command.positionals@,
                    0,
                ));
                assert(lv + arg_items(command.positionals@).take(0) =~= lv);
                while j < m
                    invariant
                        m == command.positionals@.len(),
                        j <= m,
                        items_view(line@) == lv + arg_items(command.positionals@).take(j as int),
                        lines_view(output@) == mid + seq![lv] + arg_paths(
                            lv,
                            command.positionals@,
                            j as int,
                        ),
                    decreases m - j,
                {
                    let ghost before = lines_view(output@);
                    let ghost lprev = line@;
                    line.push(CommandItem::Arg(command.positionals[j].clone()));
                    assert(items_view(line@) =~= items_view(lprev).push(
                        PathItem::Placeholder(command.positionals@[j as int]@),
                    ));
                    assert(arg_items(command.positionals@).take(j + 1) =~= arg_items(
                        command.positionals@,
                    ).take(j as int).push(PathItem::Placeholder(command.positionals@[j as int]@)));
                    assert(items_view(line@) =~= lv + arg_items(command.positionals@).take(
                        j + 1,
                    ));
                    output.push(CommandLine(copy_items(&line)));
                    assert(lines_view(output@) =~= before.push(items_view(line@)));
                    j = j + 1;
                }
            }
            assert(lines_view(output@) =~= base + flatten_children(*parent, pv, i + 1));
            i = i + 1;
        }
        assert(lines_view(output@) =~= start + flatten(*parent, pv));
    }
}

} // verus!
