//! The command grammar: one input line is split on ASCII spaces, the first
//! token selects the command, and the remaining tokens are its arguments.
//! For `ChangeDirectory` the tokens after the verb are rejoined with single
//! spaces into one argument, since directory names may contain spaces.
use vstd::prelude::*;

use crate::text::str_eq;

verus! {

#[derive(Clone, Copy, PartialEq, Eq, Structural, Debug)]
pub enum Commands {
    ListDirectory,
    ChangeDirectory,
    Open,
    Scan,
    Help,
    Quit,
}

#[derive(Debug)]
pub struct Command {
    pub command: Commands,
    pub args: Vec<String>,
}

/// A line with its trailing `"\r\n"` or `"\n"` removed.
pub open spec fn strip_newline_spec(s: Seq<char>) -> Seq<char> {
    if s.len() >= 2 && s[s.len() - 2] == '\r' && s[s.len() - 1] == '\n' {
        s.take(s.len() - 2)
    } else if s.len() >= 1 && s[s.len() - 1] == '\n' {
        s.take(s.len() - 1)
    } else {
        s
    }
}

/// The tokens of `s` split on ASCII space; splitting the empty sequence
/// gives one empty token, as `str::split` does.
pub open spec fn spec_split(s: Seq<char>) -> Seq<Seq<char>>
    decreases s.len(),
{
    if s.len() == 0 {
        seq![Seq::<char>::empty()]
    } else {
        let prev = spec_split(s.drop_last());
        if s.last() == ' ' {
            prev.push(Seq::<char>::empty())
        } else {
            prev.update(prev.len() - 1, prev.last().push(s.last()))
        }
    }
}

/// The tokens rejoined with a single space between each pair.
pub open spec fn spec_join(ts: Seq<Seq<char>>) -> Seq<char>
    decreases ts.len(),
{
    if ts.len() == 0 {
        Seq::<char>::empty()
    } else if ts.len() == 1 {
        ts[0]
    } else {
        spec_join(ts.drop_last()) + seq![' '] + ts.last()
    }
}

/// The command selected by a verb token.
pub open spec fn verb_command(v: Seq<char>) -> Commands {
    if v == "q"@ || v == "quit"@ || v == "exit"@ {
        Commands::Quit
    } else if v == "ls"@ || v == "list"@ || v == "print"@ {
        Commands::ListDirectory
    } else if v == "cd"@ {
        Commands::ChangeDirectory
    } else if v == "scan"@ {
        Commands::Scan
    } else if v == "open"@ || v == "start"@ {
        Commands::Open
    } else {
        Commands::Help
    }
}

/// The command parsed from one input line.
pub open spec fn spec_command_of(line: Seq<char>) -> Commands {
    verb_command(spec_split(strip_newline_spec(line))[0])
}

/// The argument list parsed from one input line.
pub open spec fn spec_args_of(line: Seq<char>) -> Seq<Seq<char>> {
    let toks = spec_split(strip_newline_spec(line));
    let rest = toks.drop_first();
    if verb_command(toks[0]) is ChangeDirectory {
        if rest.len() == 0 {
            Seq::<Seq<char>>::empty()
        } else {
            seq![spec_join(rest)]
        }
    } else {
        rest
    }
}

/// The canonical verb of each command.
pub open spec fn spec_canonical_verb(c: Commands) -> Seq<char> {
    match c {
        Commands::Quit => "q"@,
        Commands::ListDirectory => "ls"@,
        Commands::ChangeDirectory => "cd"@,
        Commands::Help => "h"@,
        Commands::Scan => "scan"@,
        Commands::Open => "open"@,
    }
}

/// The canonical written form of a command: its verb, then its arguments,
/// separated by single spaces.
pub open spec fn spec_canonical(c: Commands, args: Seq<Seq<char>>) -> Seq<char> {
    spec_join(seq![spec_canonical_verb(c)] + args)
}

pub trait ToCommand {
    fn to_command(&self) -> (cmd: Command)
        ensures
            cmd.command == spec_command_of(self.view_line()),
            cmd.args.deep_view() == spec_args_of(self.view_line()),
    ;

    spec fn view_line(&self) -> Seq<char>;
}

pub fn strip_trailing_newline(input: &str) -> (r: &str)
    ensures
        r@ == strip_newline_spec(input@),
{
    let n = input.unicode_len();
    if n >= 2 && input.get_char(n - 2) == '\r' && input.get_char(n - 1) == '\n' {
        let r = input.substring_char(0, n - 2);
        assert(r@ =~= strip_newline_spec(input@));
        r
    } else if n >= 1 && input.get_char(n - 1) == '\n' {
        let r = input.substring_char(0, n - 1);
        assert(r@ =~= strip_newline_spec(input@));
        r
    } else {
        input
    }
}

/// Split a line on ASCII spaces into its tokens.
pub fn split_spaces(s: &str) -> (tokens: Vec<String>)
    ensures
        tokens.deep_view() == spec_split(s@),
        tokens@.len() >= 1,
{
    let n = s.unicode_len();
    let mut tokens: Vec<String> = Vec::new();
    let mut cur: String = String::new();
    let mut i: usize = 0;
    while i < n
        invariant
            n == s@.len(),
            0 <= i <= n,
            tokens.deep_view().push(cur@) =~= spec_split(s@.take(i as int)),
        decreases n - i,
    {
        let c = s.get_char(i);
        proof {
            assert(s@.take(i + 1).drop_last() =~= s@.take(i as int));
            assert(s@.take(i + 1).last() == s@[i as int]);
        }
        if c == ' ' {
            tokens.push(cur);
            cur = String::new();
            proof {
                assert(tokens.deep_view().push(cur@) =~= spec_split(s@.take(i as int)).push(
                    Seq::<char>::empty(),
                ));
            }
        } else {
            cur.push(c);
            proof {
                let prev = spec_split(s@.take(i as int));
                assert(prev.len() >= 1) by { lemma_split_len(s@.take(i as int)) };
                assert(tokens.deep_view().push(cur@) =~= prev.update(
                    prev.len() - 1,
                    prev.last().push(c),
                ));
            }
        }
        i = i + 1;
    }
    assert(s@.take(n as int) =~= s@);
    tokens.push(cur);
    assert(tokens.deep_view() =~= spec_split(s@));
    tokens
}

/// Rejoin the tokens from `start` on with single spaces.
pub fn join_from(tokens: &Vec<String>, start: usize) -> (r: String)
    requires
        start <= tokens@.len(),
    ensures
        r@ == spec_join(tokens.deep_view().skip(start as int)),
{
    if start >= tokens.len() {
        let r = String::new();
        assert(tokens.deep_view().skip(start as int) =~= Seq::<Seq<char>>::empty());
        return r;
    }
    let mut r = tokens[start].clone();
    let mut i: usize = start + 1;
    while i < tokens.len()
        invariant
            start < tokens@.len(),
            start + 1 <= i <= tokens@.len(),
            tokens.deep_view().len() == tokens@.len(),
            forall|j: int| 0 <= j < tokens@.len() ==> tokens.deep_view()[j] == tokens@[j]@,
            r@ == spec_join(tokens.deep_view().subrange(start as int, i as int)),
        decreases tokens@.len() - i,
    {
        r.append(" ");
        r.append(tokens[i].as_str());
        proof {
            reveal_strlit(" ");
            let ts = tokens.deep_view().subrange(start as int, i + 1);
            assert(ts.drop_last() =~= tokens.deep_view().subrange(start as int, i as int));
            assert(ts.last() == tokens@[i as int]@);
            assert(r@ =~= spec_join(ts));
        }
        i = i + 1;
    }
    proof {
        assert(tokens.deep_view().subrange(start as int, tokens@.len() as int)
            =~= tokens.deep_view().skip(start as int));
        if start + 1 == tokens@.len() {
            assert(r@ == spec_join(tokens.deep_view().subrange(start as int, start + 1)));
        }
    }
    r
}

impl ToCommand for String {
    open spec fn view_line(&self) -> Seq<char> {
        self@
    }

    fn to_command(&self) -> (cmd: Command) {
        let stripped = strip_trailing_newline(self.as_str());
        let tokens = split_spaces(stripped);
        let verb = tokens[0].as_str();
        let command = if str_eq(verb, "q") || str_eq(verb, "quit") || str_eq(verb, "exit") {
            Commands::Quit
        } else if str_eq(verb, "ls") || str_eq(verb, "list") || str_eq(verb, "print") {
            Commands::ListDirectory
        } else if str_eq(verb, "cd") {
            Commands::ChangeDirectory
        } else if str_eq(verb, "scan") {
            Commands::Scan
        } else if str_eq(verb, "open") || str_eq(verb, "start") {
            Commands::Open
        } else {
            Commands::Help
        };
        let mut args: Vec<String> = Vec::new();
        if command == Commands::ChangeDirectory {
            if tokens.len() > 1 {
                args.push(join_from(&tokens, 1));
                proof {
                    assert(tokens.deep_view().skip(1) =~= spec_split(stripped@).drop_first());
                    assert(args.deep_view() =~= spec_args_of(self@));
                }
            } else {
                assert(args.deep_view() =~= spec_args_of(self@));
            }
        } else {
            let mut i: usize = 1;
            while i < tokens.len()
                invariant
                    1 <= i <= tokens@.len(),
                    tokens.deep_view().len() == tokens@.len(),
                    forall|j: int| 0 <= j < tokens@.len() ==> tokens.deep_view()[j] == tokens@[j]@,
                    args.deep_view() =~= tokens.deep_view().subrange(1, i as int),
                decreases tokens@.len() - i,
            {
                let t = tokens[i].clone();
                assert(t@ == tokens.deep_view()[i as int]);
                let ghost prev = args.deep_view();
                let ghost pv = args@;
                args.push(t);
                proof {
                    assert forall|j: int| 0 <= j < args.deep_view().len()
                        implies args.deep_view()[j] == tokens.deep_view().subrange(1, i + 1)[j] by {
                        if j < prev.len() {
                            assert(args@[j] == pv[j]);
                            assert(args.deep_view()[j] == prev[j]);
                        } else {
                            assert(args@[j] == t);
                            assert(args.deep_view()[j] == t@);
                        }
                    }
                    assert(prev.len() == i - 1);
                    assert(pv.len() == prev.len());
                    assert(args@.len() == pv.len() + 1);
                    assert(args.deep_view().len() == i + 1 - 1);
                    assert(args.deep_view() =~= tokens.deep_view().subrange(1, i + 1));
                }
                i = i + 1;
            }
            proof {
                assert(tokens.deep_view().subrange(1, tokens@.len() as int)
                    =~= spec_split(stripped@).drop_first());
                assert(args.deep_view() =~= spec_args_of(self@));
            }
        }
        Command { command, args }
    }
}

impl Command {
    /// The canonical written form `<verb> <args...>` of this command.
    pub fn canonical(&self) -> (r: String)
        ensures
            r@ == spec_canonical(self.command, self.args.deep_view()),
    {
        let verb: &str = match self.command {
            Commands::Quit => "q",
            Commands::ListDirectory => "ls",
            Commands::ChangeDirectory => "cd",
            Commands::Help => "h",
            Commands::Scan => "scan",
            Commands::Open => "open",
        };
        let mut r = verb.to_owned();
        let ghost all: Seq<Seq<char>> = seq![spec_canonical_verb(self.command)]
            + self.args.deep_view();
        assert(r@ == spec_join(all.subrange(0, 1)));
        let mut i: usize = 0;
        while i < self.args.len()
            invariant
                0 <= i <= self.args@.len(),
                all == seq![spec_canonical_verb(self.command)] + self.args.deep_view(),
                all.len() == self.args@.len() + 1,
                forall|j: int|
                    0 <= j < self.args@.len() ==> all[j + 1] == self.args@[j]@,
                r@ == spec_join(all.subrange(0, i + 1)),
            decreases self.args@.len() - i,
        {
            r.append(" ");
            r.append(self.args[i].as_str());
            proof {
                reveal_strlit(" ");
                let ts = all.subrange(0, i + 2);
                assert(ts.drop_last() =~= all.subrange(0, i + 1));
                assert(ts.last() == all[i + 1]);
                assert(r@ =~= spec_join(ts));
            }
            i = i + 1;
        }
        assert(all.subrange(0, all.len() as int) =~= all);
        r
    }
}

/// Splitting any sequence yields at least one token.
pub proof fn lemma_split_len(s: Seq<char>)
    ensures
        spec_split(s).len() >= 1,
    decreases s.len(),
{
    if s.len() > 0 {
        lemma_split_len(s.drop_last());
    }
}

/// Appending a non-space character to the last token appends it to the join.
proof fn lemma_join_push(ts: Seq<Seq<char>>, c: char)
    requires
        ts.len() >= 1,
    ensures
        spec_join(ts.update(ts.len() - 1, ts.last().push(c))) == spec_join(ts).push(c),
{
    let upd = ts.update(ts.len() - 1, ts.last().push(c));
    if ts.len() == 1 {
        assert(spec_join(upd) == upd[0]);
        assert(spec_join(upd) =~= spec_join(ts).push(c));
    } else {
        assert(upd.drop_last() =~= ts.drop_last());
        assert(upd.last() == ts.last().push(c));
        assert(spec_join(upd) =~= spec_join(ts).push(c));
    }
}

/// Rejoining the tokens of a split reconstructs the original sequence.
pub proof fn lemma_join_split(s: Seq<char>)
    ensures
        spec_join(spec_split(s)) == s,
    decreases s.len(),
{
    if s.len() == 0 {
        assert(spec_join(spec_split(s)) =~= s);
    } else {
        let prev = spec_split(s.drop_last());
        lemma_join_split(s.drop_last());
        lemma_split_len(s.drop_last());
        if s.last() == ' ' {
            let ext = prev.push(Seq::<char>::empty());
            assert(ext.drop_last() =~= prev);
            assert(spec_join(ext) =~= s);
        } else {
            lemma_join_push(prev, s.last());
            assert(spec_join(spec_split(s)) =~= s);
        }
    }
}

/// Splitting around a space concatenates the two splits.
pub proof fn lemma_split_concat(a: Seq<char>, b: Seq<char>)
    ensures
        spec_split(a + seq![' '] + b) == spec_split(a) + spec_split(b),
    decreases b.len(),
{
    lemma_split_len(a);
    if b.len() == 0 {
        let s = a + seq![' '] + b;
        assert(s.drop_last() =~= a);
        assert(s.last() == ' ');
        assert(spec_split(s) =~= spec_split(a) + spec_split(b));
    } else {
        let s = a + seq![' '] + b;
        lemma_split_concat(a, b.drop_last());
        lemma_split_len(b.drop_last());
        assert(s.drop_last() =~= a + seq![' '] + b.drop_last());
        assert(s.last() == b.last());
        let prev = spec_split(a) + spec_split(b.drop_last());
        if b.last() == ' ' {
            assert(spec_split(b) =~= spec_split(b.drop_last()).push(Seq::<char>::empty()));
            assert(spec_split(s) =~= spec_split(a) + spec_split(b));
        } else {
            let pb = spec_split(b.drop_last());
            assert(prev.last() == pb.last());
            assert(prev.update(prev.len() - 1, prev.last().push(b.last()))
                =~= spec_split(a) + pb.update(pb.len() - 1, pb.last().push(b.last())));
            assert(spec_split(s) =~= spec_split(a) + spec_split(b));
        }
    }
}

/// A sequence without spaces splits into the single token that it is.
pub proof fn lemma_split_single(s: Seq<char>)
    requires
        forall|i: int| 0 <= i < s.len() ==> s[i] != ' ',
    ensures
        spec_split(s) == seq![s],
    decreases s.len(),
{
    if s.len() == 0 {
        assert(spec_split(s) =~~= seq![s]);
    } else {
        lemma_split_single(s.drop_last());
        let prev = spec_split(s.drop_last());
        assert(prev.update(0, prev.last().push(s.last())) =~~= seq![s]);
    }
}

/// No token of a split holds a space, and none holds a character that the
/// split sequence itself does not hold.
pub proof fn lemma_split_token_chars(s: Seq<char>, ch: char)
    requires
        ch == ' ' || forall|i: int| 0 <= i < s.len() ==> s[i] != ch,
    ensures
        forall|j: int, k: int|
            0 <= j < spec_split(s).len() && 0 <= k < spec_split(s)[j].len()
                ==> #[trigger] spec_split(s)[j][k] != ch,
    decreases s.len(),
{
    if s.len() > 0 {
        lemma_split_token_chars(s.drop_last(), ch);
        let prev = spec_split(s.drop_last());
        lemma_split_len(s.drop_last());
        if s.last() == ' ' {
        } else {
            assert(s.last() != ch);
            let upd = prev.update(prev.len() - 1, prev.last().push(s.last()));
            assert forall|j: int, k: int|
                0 <= j < upd.len() && 0 <= k < upd[j].len() implies #[trigger] upd[j][k] != ch by {
                if j == prev.len() - 1 {
                    if k < prev.last().len() {
                        assert(upd[j][k] == prev[j][k]);
                    } else {
                        assert(upd[j][k] == s.last());
                    }
                } else {
                    assert(upd[j][k] == prev[j][k]);
                }
            }
        }
    }
}

/// A join holds no character, other than the space, that no token holds.
pub proof fn lemma_join_no_char(ts: Seq<Seq<char>>, ch: char)
    requires
        ch != ' ',
        forall|j: int, k: int|
            0 <= j < ts.len() && 0 <= k < ts[j].len() ==> #[trigger] ts[j][k] != ch,
    ensures
        forall|i: int| 0 <= i < spec_join(ts).len() ==> spec_join(ts)[i] != ch,
    decreases ts.len(),
{
    let j = spec_join(ts);
    if ts.len() == 0 {
    } else if ts.len() == 1 {
        assert forall|i: int| 0 <= i < j.len() implies j[i] != ch by {
            assert(ts[0][i] != ch);
        }
    } else {
        lemma_join_no_char(ts.drop_last(), ch);
        let front = spec_join(ts.drop_last());
        assert forall|i: int| 0 <= i < j.len() implies j[i] != ch by {
            if i < front.len() {
                assert(j[i] == front[i]);
            } else if i == front.len() {
                assert(j[i] == ' ');
            } else {
                assert(j[i] == ts.last()[i - front.len() - 1]);
                assert(ts[ts.len() - 1][i - front.len() - 1] != ch);
            }
        }
    }
}

/// The canonical verb of a command holds neither a space nor a newline,
/// and parses back to the command it was written for.
proof fn lemma_canonical_verb(c: Commands)
    ensures
        forall|k: int|
            0 <= k < spec_canonical_verb(c).len()
                ==> spec_canonical_verb(c)[k] != ' ' && spec_canonical_verb(c)[k] != '\n',
        verb_command(spec_canonical_verb(c)) == c,
{
    reveal_strlit("q");
    reveal_strlit("quit");
    reveal_strlit("exit");
    reveal_strlit("ls");
    reveal_strlit("list");
    reveal_strlit("print");
    reveal_strlit("cd");
    reveal_strlit("h");
    reveal_strlit("scan");
    reveal_strlit("open");
    reveal_strlit("start");
    assert("q"@.len() == 1 && "quit"@.len() == 4 && "exit"@.len() == 4 && "ls"@.len() == 2
        && "list"@.len() == 4 && "print"@.len() == 5 && "cd"@.len() == 2 && "scan"@.len() == 4
        && "open"@.len() == 4 && "start"@.len() == 5 && "h"@.len() == 1);
    assert("q"@[0] == 'q' && "h"@[0] == 'h' && "cd"@[0] == 'c' && "ls"@[0] == 'l'
        && "scan"@[0] == 's' && "open"@[0] == 'o' && "quit"@[0] == 'q' && "exit"@[0] == 'e'
        && "list"@[0] == 'l');
    match c {
        Commands::Quit => {
        },
        Commands::ListDirectory => {
            assert("ls"@ != "q"@ && "ls"@ != "quit"@ && "ls"@ != "exit"@);
        },
        Commands::ChangeDirectory => {
            assert("cd"@ != "q"@ && "cd"@ != "quit"@ && "cd"@ != "exit"@);
            assert("cd"@ != "ls"@ && "cd"@ != "list"@ && "cd"@ != "print"@);
        },
        Commands::Scan => {
            assert("scan"@ != "q"@ && "scan"@ != "quit"@ && "scan"@ != "exit"@);
            assert("scan"@ != "ls"@ && "scan"@ != "list"@ && "scan"@ != "print"@);
            assert("scan"@ != "cd"@);
        },
        Commands::Open => {
            assert("open"@ != "q"@ && "open"@ != "quit"@ && "open"@ != "exit"@);
            assert("open"@ != "ls"@ && "open"@ != "list"@ && "open"@ != "print"@);
            assert("open"@ != "cd"@ && "open"@ != "scan"@);
        },
        Commands::Help => {
            assert("h"@ != "q"@ && "h"@ != "quit"@ && "h"@ != "exit"@);
            assert("h"@ != "ls"@ && "h"@ != "list"@ && "h"@ != "print"@);
            assert("h"@ != "cd"@ && "h"@ != "scan"@);
            assert("h"@ != "open"@ && "h"@ != "start"@);
        },
    }
}

/// Parsing a line, writing the command back in its canonical form, and
/// parsing that form again gives the same command and the same arguments.
/// Stated for lines without a newline character; the line editor never
/// hands a newline to the parser.
pub proof fn lemma_parser_idempotent(line: Seq<char>)
    requires
        forall|i: int| 0 <= i < line.len() ==> line[i] != '\n',
    ensures
        spec_command_of(spec_canonical(spec_command_of(line), spec_args_of(line)))
            == spec_command_of(line),
        spec_args_of(spec_canonical(spec_command_of(line), spec_args_of(line)))
            == spec_args_of(line),
{
    let core = strip_newline_spec(line);
    assert(core == line);
    let toks = spec_split(line);
    lemma_split_len(line);
    lemma_split_token_chars(line, ' ');
    lemma_split_token_chars(line, '\n');
    let verb = toks[0];
    let c = verb_command(verb);
    let rest = toks.drop_first();
    let cverb = spec_canonical_verb(c);
    lemma_canonical_verb(c);
    if c is ChangeDirectory {
        if rest.len() == 0 {
            let canon = spec_canonical(c, spec_args_of(line));
            assert(spec_args_of(line) =~= Seq::<Seq<char>>::empty());
            assert(seq![cverb] + Seq::<Seq<char>>::empty() =~= seq![cverb]);
            assert(canon == cverb);
            assert(strip_newline_spec(canon) == canon);
            lemma_split_single(cverb);
            assert(spec_split(canon)[0] == cverb);
            assert(spec_command_of(canon) == c);
            assert(spec_split(canon).drop_first() =~= Seq::<Seq<char>>::empty());
            assert(spec_args_of(canon) =~= spec_args_of(line));
        } else {
            let a = spec_join(rest);
            assert forall|j: int, k: int|
                0 <= j < rest.len() && 0 <= k < rest[j].len()
                    implies #[trigger] rest[j][k] != ' ' && rest[j][k] != '\n' by {
                assert(rest[j] == toks[j + 1]);
                assert(spec_split(line)[j + 1][k] != ' ');
                assert(spec_split(line)[j + 1][k] != '\n');
            }
            lemma_join_no_char(rest, '\n');
            let canon = spec_canonical(c, spec_args_of(line));
            assert(spec_args_of(line) == seq![a]);
            let ts = seq![cverb] + seq![a];
            assert(ts.len() == 2);
            assert(ts.drop_last() =~= seq![cverb]);
            assert(ts.last() == a);
            assert(spec_join(seq![cverb]) == cverb);
            assert(canon == cverb + seq![' '] + a);
            assert(canon.len() > 0 && canon.last() != '\n');
            assert(strip_newline_spec(canon) == canon);
            lemma_split_concat(cverb, a);
            lemma_split_single(cverb);
            assert(spec_split(canon) =~= seq![cverb] + spec_split(a));
            assert(spec_split(canon)[0] == cverb);
            assert(spec_command_of(canon) == c);
            lemma_split_len(a);
            assert(spec_split(canon).drop_first() =~= spec_split(a));
            lemma_join_split(a);
            assert(spec_args_of(canon) =~= seq![a]);
        }
    } else {
        let ts = seq![cverb] + rest;
        assert forall|j: int, k: int|
            0 <= j < ts.len() && 0 <= k < ts[j].len()
                implies #[trigger] ts[j][k] != ' ' && ts[j][k] != '\n' by {
            if j == 0 {
                assert(ts[j] == cverb);
            } else {
                assert(ts[j] == toks[j]);
                assert(spec_split(line)[j][k] != ' ');
                assert(spec_split(line)[j][k] != '\n');
            }
        }
        let canon = spec_canonical(c, spec_args_of(line));
        assert(canon == spec_join(ts));
        lemma_split_join(ts);
        lemma_join_no_char(ts, '\n');
        assert(canon.len() == 0 || canon.last() != '\n');
        assert(strip_newline_spec(canon) == canon);
        assert(spec_split(canon) == ts);
        assert(spec_split(canon)[0] == cverb);
        assert(spec_command_of(canon) == c);
        assert(spec_split(canon).drop_first() =~= rest);
        assert(spec_args_of(canon) == spec_args_of(line));
    }
}

/// Splitting the join of space-free tokens gives the tokens back.
pub proof fn lemma_split_join(ts: Seq<Seq<char>>)
    requires
        ts.len() >= 1,
        forall|j: int, k: int|
            0 <= j < ts.len() && 0 <= k < ts[j].len() ==> #[trigger] ts[j][k] != ' ',
    ensures
        spec_split(spec_join(ts)) == ts,
    decreases ts.len(),
{
    if ts.len() == 1 {
        lemma_split_single(ts[0]);
        assert(spec_split(spec_join(ts)) =~= ts);
    } else {
        lemma_split_join(ts.drop_last());
        lemma_split_concat(spec_join(ts.drop_last()), ts.last());
        lemma_split_single(ts.last());
        assert(spec_split(spec_join(ts)) =~= ts.drop_last() + seq![ts.last()]);
        assert(ts.drop_last() + seq![ts.last()] =~= ts);
    }
}

} // verus!
