use vstd::prelude::*;

use crate::tokenizer::{is_space_char, lemma_all_space_no_tokens, tokenize, tokens_of, views_of};

verus! {

/// Why handling a command line failed before any process could run.
#[derive(Debug, Clone, PartialEq)]
pub enum CommandError {
    /// The line held no token at all.
    Empty,
    /// A `>` stood last on the line, with no target after it.
    StdoutEmpty,
    /// A `<` stood last on the line, with no target after it.
    StdinEmpty,
    /// A redirection target could not be opened; holds the path.
    FileError(String),
}

/// One parsed command line, ready to execute: the program, the arguments
/// left after truncation at the first redirection token, and the paths that
/// the child's standard streams are to be bound to, if any.
#[derive(Debug)]
pub struct ParsedCommand {
    pub program: String,
    pub arguments: Vec<String>,
    pub stdin_path: Option<String>,
    pub stdout_path: Option<String>,
}

/// A redirection token: exactly `<` or `>`.
pub open spec fn is_redirect(t: Seq<char>) -> bool {
    t == seq!['<'] || t == seq!['>']
}

/// Index of the first redirection token of `args`, or `args.len()` when
/// there is none. The argument list is truncated here.
pub open spec fn first_redirect_at(args: Seq<Seq<char>>) -> int
    decreases args.len(),
{
    if args.len() == 0 {
        0
    } else if is_redirect(args[0]) {
        0
    } else {
        1 + first_redirect_at(args.skip(1))
    }
}

/// The binding that a left-to-right scan for the redirection token `tok`
/// leaves behind: the token right after the last position of `tok` that has
/// a following token, or `None` when `tok` stands nowhere before the final
/// token. A later occurrence overwrites an earlier one.
pub open spec fn redirect_target(args: Seq<Seq<char>>, tok: Seq<char>) -> Option<Seq<char>>
    decreases args.len(),
{
    if args.len() < 2 {
        None
    } else if args[args.len() - 2] == tok {
        Some(args.last())
    } else {
        redirect_target(args.take(args.len() - 1), tok)
    }
}

/// The path sequence held by an optional path.
pub open spec fn opt_view(o: Option<String>) -> Option<Seq<char>> {
    match o {
        Some(s) => Some(s@),
        None => None,
    }
}

/// What resolving the tokens that follow the program must yield: an error
/// exactly when the final token is a redirection token (it then has no
/// target); otherwise the command whose arguments are the tokens strictly
/// before the first redirection token and whose stream bindings are the
/// targets of the last `<` and the last `>`.
pub open spec fn args_outcome(
    prog: Seq<char>,
    vs: Seq<Seq<char>>,
    r: Result<ParsedCommand, CommandError>,
) -> bool {
    if vs.len() > 0 && vs.last() == seq!['>'] {
        r is Err && r->Err_0 == CommandError::StdoutEmpty
    } else if vs.len() > 0 && vs.last() == seq!['<'] {
        r is Err && r->Err_0 == CommandError::StdinEmpty
    } else {
        &&& r is Ok
        &&& r->Ok_0.program@ == prog
        &&& views_of(r->Ok_0.arguments@) == vs.take(first_redirect_at(vs))
        &&& opt_view(r->Ok_0.stdin_path) == redirect_target(vs, seq!['<'])
        &&& opt_view(r->Ok_0.stdout_path) == redirect_target(vs, seq!['>'])
    }
}

/// What parsing one raw line must yield: the empty-command error when the
/// line has no tokens, else the outcome of resolving the tokens after the
/// first one, which is the program.
pub open spec fn parse_outcome(line: Seq<char>, r: Result<ParsedCommand, CommandError>) -> bool {
    let toks = tokens_of(line);
    if toks.len() == 0 {
        r is Err && r->Err_0 == CommandError::Empty
    } else {
        args_outcome(toks[0], toks.skip(1), r)
    }
}

/// How one token takes part in redirection resolution.
pub enum TokenClass {
    Plain,
    RedirectIn,
    RedirectOut,
}

/// Classifies one token: the input redirection token `<`, the output
/// redirection token `>`, or an ordinary token.
pub fn classify_token(t: &str) -> (r: TokenClass)
    ensures
        (r is RedirectIn) == (t@ == seq!['<']),
        (r is RedirectOut) == (t@ == seq!['>']),
        (r is Plain) == !is_redirect(t@),
{
    proof {
        assert(seq!['<'].len() == 1 && seq!['<'][0] == '<');
        assert(seq!['>'].len() == 1 && seq!['>'][0] == '>');
    }
    if t.unicode_len() == 1 {
        let c = t.get_char(0);
        if c == '<' {
            proof {
                assert(t@ =~= seq!['<']);
            }
            TokenClass::RedirectIn
        } else if c == '>' {
            proof {
                assert(t@ =~= seq!['>']);
            }
            TokenClass::RedirectOut
        } else {
            TokenClass::Plain
        }
    } else {
        TokenClass::Plain
    }
}

/// Where the scan that has processed the tokens before index `i` out of `n`
/// has read up to: the target of a redirection token at `i - 1` stands at
/// `i`, so the bindings reflect the first `i + 1` tokens, clipped to `n`.
spec fn seen_prefix(i: int, n: int) -> int {
    if i < n {
        i + 1
    } else {
        n
    }
}

/// One scan step: extending the window by one token either installs that
/// token as the target of a redirection token right before it, or leaves
/// the binding as it was.
proof fn lemma_target_step(vs: Seq<Seq<char>>, i: int, tok: Seq<char>)
    requires
        0 <= i,
        i + 2 <= vs.len(),
    ensures
        vs[i] == tok ==> redirect_target(vs.take(i + 2), tok) == Some(vs[i + 1]),
        vs[i] != tok ==> redirect_target(vs.take(i + 2), tok) == redirect_target(
            vs.take(i + 1),
            tok,
        ),
{
    let w = vs.take(i + 2);
    assert(w.len() == i + 2);
    assert(w[w.len() - 2] == vs[i]);
    assert(w.last() == vs[i + 1]);
    if vs[i] != tok {
        assert(w.take(i + 1) =~= vs.take(i + 1));
    }
}

/// If the first `k` entries of `vs` are not redirection tokens and entry
/// `k` either does not exist or is one, the truncation point is exactly `k`.
proof fn lemma_first_redirect_at_is(vs: Seq<Seq<char>>, k: int)
    requires
        0 <= k <= vs.len(),
        forall|j: int| 0 <= j < k ==> !is_redirect(vs[j]),
        k == vs.len() || is_redirect(vs[k]),
    ensures
        first_redirect_at(vs) == k,
    decreases k,
{
    if k > 0 {
        assert(!is_redirect(vs[0]));
        lemma_first_redirect_at_is(vs.skip(1), k - 1);
    }
}

/// The truncation point is the position of the earliest redirection token:
/// every retained argument stands strictly before every redirection token,
/// so no redirection token — and no redirection target, which stands right
/// after one — is ever among the arguments.
pub proof fn lemma_arguments_before_redirects(vs: Seq<Seq<char>>)
    ensures
        0 <= first_redirect_at(vs) <= vs.len(),
        first_redirect_at(vs) < vs.len() ==> is_redirect(vs[first_redirect_at(vs)]),
        forall|j: int| 0 <= j < first_redirect_at(vs) ==> !is_redirect(vs[j]),
        forall|j: int| 0 <= j < vs.len() && is_redirect(#[trigger] vs[j]) ==> first_redirect_at(
            vs,
        ) <= j,
    decreases vs.len(),
{
    if vs.len() > 0 && !is_redirect(vs[0]) {
        lemma_arguments_before_redirects(vs.skip(1));
        assert(forall|j: int|
            1 <= j < vs.len() ==> vs[j] == vs.skip(1)[j - 1]);
    }
}

/// If `tok` stands nowhere in `vs` with a following token, no binding for
/// it comes out of the scan.
proof fn lemma_no_target_when_absent(vs: Seq<Seq<char>>, tok: Seq<char>)
    requires
        forall|j: int| 0 <= j < vs.len() ==> vs[j] != tok,
    ensures
        redirect_target(vs, tok) is None,
    decreases vs.len(),
{
    if vs.len() >= 2 {
        assert(forall|j: int| 0 <= j < vs.len() - 1 ==> vs.take(vs.len() - 1)[j] == vs[j]);
        lemma_no_target_when_absent(vs.take(vs.len() - 1), tok);
    }
}

/// Scans the tokens that follow the program once, left to right, for `<`
/// and `>`; resolves each to the path right after it (a later occurrence of
/// the same kind overwrites an earlier one), fails when a redirection token
/// stands last, and truncates the argument list at the first redirection
/// token.
pub fn parse_args(program: String, args: Vec<String>) -> (r: Result<
    ParsedCommand,
    CommandError,
>)
    ensures
        args_outcome(program@, views_of(args@), r),
{
    let ghost vs = views_of(args@);
    let n = args.len();
    let mut stdin_path: Option<String> = None;
    let mut stdout_path: Option<String> = None;
    let mut args_end: usize = n;
    let mut idx: usize = 0;
    while idx < n
        invariant
            n == args.len(),
            vs == views_of(args@),
            vs.len() == n,
            idx <= n,
            args_end <= n,
            args_end == n || (args_end < idx && is_redirect(vs[args_end as int])),
            forall|j: int| 0 <= j < idx && j < args_end ==> !is_redirect(#[trigger] vs[j]),
            forall|j: int| 0 <= j < idx && is_redirect(#[trigger] vs[j]) ==> j + 1 < n,
            opt_view(stdin_path) == redirect_target(
                vs.take(seen_prefix(idx as int, n as int)),
                seq!['<'],
            ),
            opt_view(stdout_path) == redirect_target(
                vs.take(seen_prefix(idx as int, n as int)),
                seq!['>'],
            ),
        decreases n - idx,
    {
        proof {
            assert(vs[idx as int] == args@[idx as int]@);
            assert(seq!['<'][0] == '<' && seq!['>'][0] == '>');
            assert(seq!['<'] != seq!['>']);
        }
        match classify_token(args[idx].as_str()) {
            TokenClass::RedirectOut => {
                if idx + 1 < n {
                    proof {
                        assert(vs[idx + 1] == args@[idx + 1]@);
                        lemma_target_step(vs, idx as int, seq!['>']);
                        lemma_target_step(vs, idx as int, seq!['<']);
                    }
                    stdout_path = Some(args[idx + 1].clone());
                    if idx < args_end {
                        args_end = idx;
                    }
                } else {
                    proof {
                        assert(vs.last() == vs[n - 1]);
                    }
                    return Err(CommandError::StdoutEmpty);
                }
            },
            TokenClass::RedirectIn => {
                if idx + 1 < n {
                    proof {
                        assert(vs[idx + 1] == args@[idx + 1]@);
                        lemma_target_step(vs, idx as int, seq!['<']);
                        lemma_target_step(vs, idx as int, seq!['>']);
                    }
                    stdin_path = Some(args[idx + 1].clone());
                    if idx < args_end {
                        args_end = idx;
                    }
                } else {
                    proof {
                        assert(vs.last() == vs[n - 1]);
                    }
                    return Err(CommandError::StdinEmpty);
                }
            },
            TokenClass::Plain => {
                proof {
                    if idx + 1 < n {
                        lemma_target_step(vs, idx as int, seq!['<']);
                        lemma_target_step(vs, idx as int, seq!['>']);
                    }
                }
            },
        }
        idx = idx + 1;
    }
    proof {
        assert(vs.take(seen_prefix(n as int, n as int)) =~= vs);
        if vs.len() > 0 {
            assert(vs.last() == vs[n - 1]);
            assert(!is_redirect(vs[n - 1]));
        }
        lemma_first_redirect_at_is(vs, args_end as int);
    }
    let mut arguments = args;
    arguments.truncate(args_end);
    proof {
        assert(views_of(arguments@) =~= vs.take(first_redirect_at(vs)));
    }
    Ok(ParsedCommand { program, arguments, stdin_path, stdout_path })
}

/// Parses one raw line of input: splits it into tokens, fails on a line
/// with none, and otherwise takes the first token as the program and
/// resolves redirections among the rest.
pub fn parse_cmd(input: &str) -> (r: Result<ParsedCommand, CommandError>)
    ensures
        parse_outcome(input@, r),
{
    let mut toks = tokenize(input);
    if toks.is_empty() {
        proof {
            assert(tokens_of(input@).len() == views_of(toks@).len());
        }
        return Err(CommandError::Empty);
    }
    let ghost all = toks@;
    let program = toks.remove(0);
    proof {
        assert(program@ == views_of(all)[0]);
        assert(views_of(toks@) =~= views_of(all).skip(1));
    }
    parse_args(program, toks)
}

impl CommandError {
    /// The message reported to the user for this error.
    pub open spec fn spec_message(self) -> Seq<char> {
        match self {
            CommandError::Empty => "Error: Empty command"@,
            CommandError::FileError(f) => "Error: file not found: "@ + f@,
            CommandError::StdinEmpty => "Error: No file given after <"@,
            CommandError::StdoutEmpty => "Error: No file given after >"@,
        }
    }

    /// Renders the error as the message shown to the user.
    pub fn message(&self) -> (r: String)
        ensures
            r@ == self.spec_message(),
    {
        match self {
            CommandError::Empty => String::from_str("Error: Empty command"),
            CommandError::FileError(f) => {
                let mut s = String::from_str("Error: file not found: ");
                s.append(f.as_str());
                s
            },
            CommandError::StdinEmpty => String::from_str("Error: No file given after <"),
            CommandError::StdoutEmpty => String::from_str("Error: No file given after >"),
        }
    }
}

/// A line of nothing but white space (the empty line included) parses to
/// the empty-command error.
pub proof fn lemma_whitespace_line_rejected(
    line: Seq<char>,
    r: Result<ParsedCommand, CommandError>,
)
    requires
        forall|i: int| 0 <= i < line.len() ==> is_space_char(#[trigger] line[i]),
        parse_outcome(line, r),
    ensures
        r is Err,
        r->Err_0 == CommandError::Empty,
{
    lemma_all_space_no_tokens(line);
}

/// A line whose tokens hold no redirection token parses to its first token
/// as the program, all remaining tokens as the arguments, and no stream
/// binding of either kind.
pub proof fn lemma_plain_line_parsed(line: Seq<char>, r: Result<ParsedCommand, CommandError>)
    requires
        tokens_of(line).len() > 0,
        forall|j: int| 1 <= j < tokens_of(line).len() ==> !is_redirect(#[trigger] tokens_of(
            line,
        )[j]),
        parse_outcome(line, r),
    ensures
        r is Ok,
        r->Ok_0.program@ == tokens_of(line)[0],
        views_of(r->Ok_0.arguments@) == tokens_of(line).skip(1),
        r->Ok_0.stdin_path is None,
        r->Ok_0.stdout_path is None,
{
    let toks = tokens_of(line);
    let rest = toks.skip(1);
    assert(forall|j: int| 0 <= j < rest.len() ==> #[trigger] rest[j] == toks[j + 1]);
    assert(forall|j: int| 0 <= j < rest.len() ==> !is_redirect(rest[j]));
    assert(seq!['<'][0] == '<' && seq!['>'][0] == '>');
    assert(forall|j: int| 0 <= j < rest.len() ==> rest[j] != seq!['<'] && rest[j] != seq!['>']);
    lemma_first_redirect_at_is(rest, rest.len() as int);
    lemma_no_target_when_absent(rest, seq!['<']);
    lemma_no_target_when_absent(rest, seq!['>']);
    assert(rest.take(rest.len() as int) =~= rest);
}

} // verus!
