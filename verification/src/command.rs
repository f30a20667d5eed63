//! Typable commands: their names, aliases, descriptions and arguments, the
//! markdown table of them in the documentation, and what the command prompt
//! does with what is typed into it.

use crate::buffer::BufferID;
use crate::strings::{push_str, string_from_chars};
use crate::unicode::{is_unicode_whitespace, unicode_white_space};
use vstd::prelude::*;
use vstd::string::StrSliceExecFns;

verus! {

/// A typable command.
#[derive(Debug)]
pub struct Command {
    pub name: String,
    pub aliases: Vec<String>,
    pub description: String,
    pub args: Vec<CommandArgument>,
}

#[derive(Debug)]
pub enum CommandArgument {
    Required(CommandArgumentVariants),
    Optional(CommandArgumentVariants),
}

#[derive(Debug)]
pub enum CommandArgumentVariants {
    FilePath,
    FilePaths(Vec<String>),
    DicectoryPath,
    Buffer,
    Buffers(Vec<BufferID>),
    IndentStyle((Option<Spacing>, usize)),
    LineEnding(LineEnding),
    UndoKind(UndoKind),
    Theme,
    Languages,
    ConfigOptions,
    ShellCommand,
    Char(char),
    Integer(isize),
}

#[derive(Debug, Clone, Copy, PartialEq, Eq, Structural)]
pub enum Spacing {
    Tabs,
    Spaces,
}

#[derive(Debug, Clone, Copy, PartialEq, Eq, Structural)]
pub enum LineEnding {
    CRLF,
    LF,
}

/// How far to undo: a number of steps, or a period of seconds.
#[derive(Debug, Clone, Copy, PartialEq, Eq, Structural)]
pub enum UndoKind {
    Steps(usize),
    TimePeriod(u64),
}

/// `parts` with `sep` between each two of them.
pub open spec fn join_spec(parts: Seq<Seq<char>>, sep: Seq<char>) -> Seq<char>
    decreases parts.len(),
{
    if parts.len() == 0 {
        Seq::empty()
    } else if parts.len() == 1 {
        parts[0]
    } else {
        join_spec(parts.drop_last(), sep) + sep + parts.last()
    }
}

/// A markdown table row of the cells `cols`.
pub open spec fn row_spec(cols: Seq<Seq<char>>) -> Seq<char> {
    seq!['|', ' '] + join_spec(cols, seq![' ', '|', ' ']) + seq![' ', '|', '\n']
}

/// A markdown table heading of the titles `cols`: their row and the rule below it.
pub open spec fn heading_spec(cols: Seq<Seq<char>>) -> Seq<char> {
    row_spec(cols) + row_spec(Seq::new(cols.len(), |i: int| seq!['-', '-', '-']))
}

/// `s` as code in markdown.
pub open spec fn mono_spec(s: Seq<char>) -> Seq<char> {
    seq!['`'] + s + seq!['`']
}

/// `s` with each line feed replaced by a markdown line break.
pub open spec fn br_spec(s: Seq<char>) -> Seq<char>
    decreases s.len(),
{
    if s.len() == 0 {
        s
    } else if s.last() == '\n' {
        br_spec(s.drop_last()) + seq!['<', 'b', 'r', '>']
    } else {
        br_spec(s.drop_last()).push(s.last())
    }
}

/// The names of command `c`: its name, then its aliases.
pub open spec fn names_of(c: Command) -> Seq<Seq<char>> {
    seq![c.name@] + c.aliases@.map_values(|a: String| a@)
}

/// The rows of the commands `cs`: each one's names and its description.
pub open spec fn command_rows(cs: Seq<Command>) -> Seq<char>
    decreases cs.len(),
{
    if cs.len() == 0 {
        Seq::empty()
    } else {
        command_rows(cs.drop_last()) + row_spec(
            seq![join_spec(names_of(cs.last()), seq![',', ' ']), br_spec(cs.last().description@)],
        )
    }
}

/// The markdown table of the typable commands `cs`.
pub open spec fn typable_commands_spec(cs: Seq<Command>) -> Seq<char> {
    heading_spec(seq![seq!['N', 'a', 'm', 'e'], seq!['D', 'e', 's', 'c', 'r', 'i', 'p', 't', 'i', 'o', 'n']])
        + command_rows(cs)
}

/// Appends `parts` joined by `sep` to `out`.
pub(crate) fn push_joined(out: &mut Vec<char>, parts: &Vec<Vec<char>>, sep: &str)
    ensures
        final(out)@ == old(out)@ + join_spec(parts@.map_values(|p: Vec<char>| p@), sep@),
{
    let ghost ps = parts@.map_values(|p: Vec<char>| p@);
    let mut i: usize = 0;
    while i < parts.len()
        invariant
            ps == parts@.map_values(|p: Vec<char>| p@),
            0 <= i <= parts@.len(),
            out@ == old(out)@ + join_spec(ps.take(i as int), sep@),
        decreases parts.len() - i,
    {
        proof {
            assert(ps.take(i + 1).drop_last() =~= ps.take(i as int));
            assert(ps.take(i + 1).last() == parts@[i as int]@);
        }
        if i > 0 {
            push_str(out, sep);
        }
        let ghost mid = out@;
        let p = &parts[i];
        let mut j: usize = 0;
        while j < p.len()
            invariant
                0 <= j <= p@.len(),
                out@ == mid + p@.take(j as int),
            decreases p.len() - j,
        {
            out.push(p[j]);
            j = j + 1;
            proof {
                assert(out@ =~= mid + p@.take(j as int));
            }
        }
        proof {
            assert(p@.take(j as int) =~= p@);
            if i == 0 {
                assert(ps.take(1) =~= seq![p@]);
                assert(join_spec(ps.take(0), sep@) =~= Seq::<char>::empty());
            }
            assert(out@ =~= old(out)@ + join_spec(ps.take(i + 1), sep@));
        }
        i = i + 1;
    }
    proof {
        assert(ps.take(i as int) =~= ps);
    }
}

/// Appends the table row of `cols` to `out`.
pub(crate) fn push_row(out: &mut Vec<char>, cols: &Vec<Vec<char>>)
    ensures
        final(out)@ == old(out)@ + row_spec(cols@.map_values(|p: Vec<char>| p@)),
{
    push_str(out, "| ");
    push_joined(out, cols, " | ");
    push_str(out, " |\n");
    proof {
        reveal_strlit("| ");
        reveal_strlit(" | ");
        reveal_strlit(" |\n");
        assert("| "@ =~= seq!['|', ' ']);
        assert(" | "@ =~= seq![' ', '|', ' ']);
        assert(" |\n"@ =~= seq![' ', '|', '\n']);
        assert(out@ =~= old(out)@ + row_spec(cols@.map_values(|p: Vec<char>| p@)));
    }
}

/// The chars of `s`.
pub(crate) fn chars_of(s: &str) -> (v: Vec<char>)
    ensures
        v@ == s@,
{
    let mut v = Vec::new();
    push_str(&mut v, s);
    v
}

/// Appends the table heading of `cols` to `out`.
pub(crate) fn push_heading(out: &mut Vec<char>, cols: &Vec<Vec<char>>)
    ensures
        final(out)@ == old(out)@ + heading_spec(cols@.map_values(|p: Vec<char>| p@)),
{
    push_row(out, cols);
    let mut rule: Vec<Vec<char>> = Vec::new();
    let mut i: usize = 0;
    while i < cols.len()
        invariant
            0 <= i <= cols@.len(),
            rule@.len() == i,
            forall|j: int| 0 <= j < i ==> #[trigger] rule@[j]@ == seq!['-', '-', '-'],
        decreases cols.len() - i,
    {
        let dashes = chars_of("---");
        proof {
            reveal_strlit("---");
            assert("---"@ =~= seq!['-', '-', '-']);
        }
        rule.push(dashes);
        i = i + 1;
    }
    push_row(out, &rule);
    proof {
        assert(rule@.map_values(|p: Vec<char>| p@) =~= Seq::new(
            cols@.map_values(|p: Vec<char>| p@).len(),
            |i: int| seq!['-', '-', '-'],
        ));
    }
}

/// Appends `s` with its line feeds replaced by line breaks to `out`.
fn push_br(out: &mut Vec<char>, s: &str)
    ensures
        final(out)@ == old(out)@ + br_spec(s@),
{
    let n = s.unicode_len();
    let mut i: usize = 0;
    while i < n
        invariant
            n == s@.len(),
            0 <= i <= n,
            out@ == old(out)@ + br_spec(s@.take(i as int)),
        decreases n - i,
    {
        let c = s.get_char(i);
        proof {
            assert(s@.take(i + 1).drop_last() =~= s@.take(i as int));
            assert(s@.take(i + 1).last() == c);
        }
        if c == '\n' {
            push_str(out, "<br>");
            proof {
                reveal_strlit("<br>");
                assert("<br>"@ =~= seq!['<', 'b', 'r', '>']);
            }
        } else {
            out.push(c);
        }
        i = i + 1;
        proof {
            assert(out@ =~= old(out)@ + br_spec(s@.take(i as int)));
        }
    }
    proof {
        assert(s@.take(i as int) =~= s@);
    }
}

/// The chars of each of `cols`.
pub(crate) fn chars_of_all(cols: &[String]) -> (v: Vec<Vec<char>>)
    ensures
        v@.map_values(|p: Vec<char>| p@) == cols@.map_values(|s: String| s@),
{
    let mut v: Vec<Vec<char>> = Vec::new();
    let mut i: usize = 0;
    while i < cols.len()
        invariant
            0 <= i <= cols@.len(),
            v@.len() == i,
            forall|j: int| 0 <= j < i ==> #[trigger] v@[j]@ == cols@[j]@,
        decreases cols.len() - i,
    {
        v.push(chars_of(cols[i].as_str()));
        i = i + 1;
    }
    proof {
        assert(v@.map_values(|p: Vec<char>| p@) =~= cols@.map_values(|s: String| s@));
    }
    v
}

/// A markdown table row of the cells `cols`.
pub fn md_table_row(cols: &[String]) -> (r: String)
    ensures
        r@ == row_spec(cols@.map_values(|s: String| s@)),
{
    let mut out: Vec<char> = Vec::new();
    push_row(&mut out, &chars_of_all(cols));
    string_from_chars(out.as_slice())
}

/// A markdown table heading of the titles `cols`: their row and the rule below.
pub fn md_table_heading(cols: &[String]) -> (r: String)
    ensures
        r@ == heading_spec(cols@.map_values(|s: String| s@)),
{
    let mut out: Vec<char> = Vec::new();
    push_heading(&mut out, &chars_of_all(cols));
    string_from_chars(out.as_slice())
}

/// `s` as code in markdown.
pub fn md_mono(s: &str) -> (r: String)
    ensures
        r@ == mono_spec(s@),
{
    let mut out: Vec<char> = Vec::new();
    out.push('`');
    push_str(&mut out, s);
    out.push('`');
    proof {
        assert(out@ =~= mono_spec(s@));
    }
    string_from_chars(out.as_slice())
}

/// The markdown table of the typable commands `commands`: a row per
/// command with its name and aliases, and its description with line breaks
/// for line feeds.
pub fn typable_commands(commands: &[Command]) -> (md: String)
    ensures
        md@ == typable_commands_spec(commands@),
{
    let mut md: Vec<char> = Vec::new();
    let mut titles: Vec<Vec<char>> = Vec::new();
    titles.push(chars_of("Name"));
    titles.push(chars_of("Description"));
    proof {
        reveal_strlit("Name");
        reveal_strlit("Description");
        assert("Name"@ =~= seq!['N', 'a', 'm', 'e']);
        assert("Description"@ =~= seq!['D', 'e', 's', 'c', 'r', 'i', 'p', 't', 'i', 'o', 'n']);
        assert(titles@.map_values(|p: Vec<char>| p@) =~= seq![
            seq!['N', 'a', 'm', 'e'],
            seq!['D', 'e', 's', 'c', 'r', 'i', 'p', 't', 'i', 'o', 'n'],
        ]);
    }
    push_heading(&mut md, &titles);
    let ghost head = md@;
    let mut i: usize = 0;
    while i < commands.len()
        invariant
            0 <= i <= commands@.len(),
            md@ == head + command_rows(commands@.take(i as int)),
        decreases commands.len() - i,
    {
        let c = &commands[i];
        let mut names: Vec<Vec<char>> = Vec::new();
        names.push(chars_of(c.name.as_str()));
        let mut k: usize = 0;
        while k < c.aliases.len()
            invariant
                0 <= k <= c.aliases@.len(),
                names@.len() == k + 1,
                names@[0]@ == c.name@,
                forall|j: int| 0 < j <= k ==> #[trigger] names@[j]@ == c.aliases@[j - 1]@,
            decreases c.aliases.len() - k,
        {
            names.push(chars_of(c.aliases[k].as_str()));
            k = k + 1;
        }
        proof {
            assert(names@.map_values(|p: Vec<char>| p@) =~= names_of(*c));
        }
        let mut joined: Vec<char> = Vec::new();
        push_joined(&mut joined, &names, ", ");
        let mut desc: Vec<char> = Vec::new();
        push_br(&mut desc, c.description.as_str());
        let mut cells: Vec<Vec<char>> = Vec::new();
        cells.push(joined);
        cells.push(desc);
        let ghost before = md@;
        push_row(&mut md, &cells);
        proof {
            reveal_strlit(", ");
            assert(", "@ =~= seq![',', ' ']);
            assert(cells@.map_values(|p: Vec<char>| p@) =~= seq![
                join_spec(names_of(*c), seq![',', ' ']),
                br_spec(c.description@),
            ]);
            assert(commands@.take(i + 1).drop_last() =~= commands@.take(i as int));
            assert(commands@.take(i + 1).last() == *c);
            assert(md@ =~= head + command_rows(commands@.take(i + 1)));
        }
        i = i + 1;
    }
    proof {
        assert(commands@.take(i as int) =~= commands@);
    }
    string_from_chars(md.as_slice())
}

/// `s` split at each char with the White_Space property (two in a row give
/// an empty part).
pub open spec fn split_at_whitespace(s: Seq<char>) -> Seq<Seq<char>>
    decreases s.len(),
{
    if s.len() == 0 {
        seq![Seq::empty()]
    } else {
        let parts = split_at_whitespace(s.drop_last());
        if unicode_white_space(s.last()) {
            parts.push(Seq::empty())
        } else {
            parts.update(parts.len() - 1, parts.last().push(s.last()))
        }
    }
}

/// The parts of `parts` that are not empty, in their order.
pub open spec fn non_empty(parts: Seq<Seq<char>>) -> Seq<Seq<char>>
    decreases parts.len(),
{
    if parts.len() == 0 {
        parts
    } else if parts.last().len() > 0 {
        non_empty(parts.drop_last()).push(parts.last())
    } else {
        non_empty(parts.drop_last())
    }
}

/// The words of `s`: its runs of chars without white space.
pub open spec fn words_of(s: Seq<char>) -> Seq<Seq<char>> {
    non_empty(split_at_whitespace(s))
}

/// The number the decimal digits `s` write.
pub open spec fn decimal(s: Seq<char>) -> nat
    decreases s.len(),
{
    if s.len() == 0 {
        0
    } else {
        decimal(s.drop_last()) * 10 + ((s.last() as u32) - ('0' as u32)) as nat
    }
}

pub open spec fn all_digits(s: Seq<char>) -> bool {
    forall|i: int| 0 <= i < s.len() ==> '0' <= #[trigger] s[i] <= '9'
}

/// The number `s` writes as a `usize`: decimal digits, after an optional
/// `+`, whose value fits.
pub open spec fn parse_usize_spec(s: Seq<char>) -> Option<nat> {
    let d = if s.len() > 0 && s[0] == '+' { s.drop_first() } else { s };
    if d.len() > 0 && all_digits(d) && decimal(d) <= usize::MAX {
        Some(decimal(d))
    } else {
        None
    }
}

/// What the command prompt does with its input.
#[derive(Debug)]
pub enum PromptAction {
    /// Nothing to do.
    Nothing,
    /// A line number alone: go to that line.
    GotoLine(usize),
    /// Run command number `command` of the list with the words after its name.
    Run { command: usize, args: Vec<String> },
    /// On validation, no command has the name given.
    NoSuchCommand(String),
}

/// The action as the contracts see it.
pub enum PromptActionView {
    Nothing,
    GotoLine(nat),
    Run(int, Seq<Seq<char>>),
    NoSuchCommand(Seq<char>),
}

pub open spec fn action_view(a: PromptAction) -> PromptActionView {
    match a {
        PromptAction::Nothing => PromptActionView::Nothing,
        PromptAction::GotoLine(n) => PromptActionView::GotoLine(n as nat),
        PromptAction::Run { command, args } => PromptActionView::Run(command as int, args@.map_values(|a: String| a@)),
        PromptAction::NoSuchCommand(name) => PromptActionView::NoSuchCommand(name@),
    }
}

/// Whether command `c` is called `n`, by its name or an alias.
pub open spec fn called(c: Command, n: Seq<char>) -> bool {
    c.name@ == n || exists|i: int| 0 <= i < c.aliases@.len() && #[trigger] c.aliases@[i]@ == n
}

/// Index of the first command of `cs` called `n` (their number where there is none).
pub open spec fn find_command_spec(cs: Seq<Command>, n: Seq<char>) -> int
    decreases cs.len(),
{
    if cs.len() == 0 {
        0
    } else if called(cs[0], n) {
        0
    } else {
        1 + find_command_spec(cs.drop_first(), n)
    }
}

/// What the prompt does with `input`: nothing for blank input; a line number
/// alone goes to the line; a command's name or alias runs it with the words
/// after it; anything else, on validation, is no command.
pub open spec fn prompt_action_spec(input: Seq<char>, commands: Seq<Command>, validate: bool) -> PromptActionView {
    let parts = words_of(input);
    if parts.len() == 0 {
        PromptActionView::Nothing
    } else if parts.len() == 1 && parse_usize_spec(parts[0]).is_some() {
        PromptActionView::GotoLine(parse_usize_spec(parts[0]).unwrap())
    } else {
        let i = find_command_spec(commands, parts[0]);
        if i < commands.len() {
            PromptActionView::Run(i, parts.drop_first())
        } else if validate {
            PromptActionView::NoSuchCommand(parts[0])
        } else {
            PromptActionView::Nothing
        }
    }
}

proof fn lemma_find_command(cs: Seq<Command>, n: Seq<char>)
    ensures
        0 <= find_command_spec(cs, n) <= cs.len(),
        find_command_spec(cs, n) < cs.len() ==> called(cs[find_command_spec(cs, n)], n),
        forall|j: int| 0 <= j < find_command_spec(cs, n) ==> !called(#[trigger] cs[j], n),
    decreases cs.len(),
{
    if cs.len() > 0 && !called(cs[0], n) {
        lemma_find_command(cs.drop_first(), n);
        assert forall|j: int| 0 <= j < find_command_spec(cs, n) implies !called(#[trigger] cs[j], n) by {
            if j > 0 {
                assert(cs[j] == cs.drop_first()[j - 1]);
            }
        }
    }
}

/// The words of `s`.
fn words(s: &str) -> (w: Vec<Vec<char>>)
    ensures
        w@.map_values(|p: Vec<char>| p@) == words_of(s@),
{
    let n = s.unicode_len();
    let mut parts: Vec<Vec<char>> = Vec::new();
    parts.push(Vec::new());
    let mut k: usize = 0;
    proof {
        assert(s@.take(0) =~= Seq::<char>::empty());
        assert(parts@.map_values(|p: Vec<char>| p@) =~= split_at_whitespace(s@.take(0)));
    }
    while k < n
        invariant
            n == s@.len(),
            0 <= k <= n,
            parts@.map_values(|p: Vec<char>| p@) == split_at_whitespace(s@.take(k as int)),
            parts@.len() >= 1,
        decreases n - k,
    {
        let c = s.get_char(k);
        proof {
            assert(s@.take(k + 1).drop_last() =~= s@.take(k as int));
            assert(s@.take(k + 1).last() == c);
        }
        if is_unicode_whitespace(c) {
            parts.push(Vec::new());
        } else {
            let last = parts.len() - 1;
            let mut p = parts.remove(last);
            p.push(c);
            parts.push(p);
        }
        k = k + 1;
        proof {
            assert(parts@.map_values(|p: Vec<char>| p@) =~= split_at_whitespace(s@.take(k as int)));
        }
    }
    proof {
        assert(s@.take(k as int) =~= s@);
    }
    let ghost ps = parts@.map_values(|p: Vec<char>| p@);
    let mut out: Vec<Vec<char>> = Vec::new();
    let mut i: usize = 0;
    let total = parts.len();
    while i < total
        invariant
            total == parts@.len(),
            ps == parts@.map_values(|p: Vec<char>| p@),
            0 <= i <= total,
            out@.map_values(|p: Vec<char>| p@) == non_empty(ps.take(i as int)),
        decreases total - i,
    {
        proof {
            assert(ps.take(i + 1).drop_last() =~= ps.take(i as int));
            assert(ps.take(i + 1).last() == parts@[i as int]@);
        }
        if parts[i].len() > 0 {
            let mut p: Vec<char> = Vec::new();
            let mut j: usize = 0;
            while j < parts[i].len()
                invariant
                    0 <= j <= parts@[i as int]@.len(),
                    i < parts@.len(),
                    p@ == parts@[i as int]@.take(j as int),
                decreases parts@[i as int]@.len() - j,
            {
                p.push(parts[i][j]);
                j = j + 1;
                proof {
                    assert(p@ =~= parts@[i as int]@.take(j as int));
                }
            }
            proof {
                assert(p@ =~= parts@[i as int]@);
            }
            out.push(p);
        }
        proof {
            assert(out@.map_values(|p: Vec<char>| p@) =~= non_empty(ps.take(i + 1)));
        }
        i = i + 1;
    }
    proof {
        assert(ps.take(i as int) =~= ps);
    }
    out
}

/// The number `s` writes as a `usize`, if it writes one (see `parse_usize_spec`).
pub(crate) fn parse_usize(s: &Vec<char>) -> (r: Option<usize>)
    ensures
        match r {
            Some(n) => parse_usize_spec(s@) == Some(n as nat),
            None => parse_usize_spec(s@).is_none(),
        },
{
    let start: usize = if s.len() > 0 && s[0] == '+' { 1 } else { 0 };
    let ghost d = if s@.len() > 0 && s@[0] == '+' { s@.drop_first() } else { s@ };
    proof {
        assert(d =~= s@.skip(start as int));
    }
    if start >= s.len() {
        return None;
    }
    let mut value: usize = 0;
    let mut i: usize = start;
    while i < s.len()
        invariant
            d == s@.skip(start as int),
            d == (if s@.len() > 0 && s@[0] == '+' { s@.drop_first() } else { s@ }),
            start <= i <= s@.len(),
            start < s@.len(),
            all_digits(d.take(i - start)),
            value == decimal(d.take(i - start)),
        decreases s.len() - i,
    {
        let c = s[i];
        proof {
            assert(d.take(i + 1 - start).drop_last() =~= d.take(i - start));
            assert(d.take(i + 1 - start).last() == c);
        }
        if c < '0' || c > '9' {
            proof {
                assert(!all_digits(d)) by {
                    assert(d[i - start] == c);
                    assert(!('0' <= d[i - start] <= '9'));
                }
            }
            return None;
        }
        let digit = (c as u32 - '0' as u32) as usize;
        if value > (usize::MAX - digit) / 10 {
            proof {
                lemma_decimal_grows(d, (i - start) as int, (i + 1 - start) as int);
                assert(decimal(d.take(i + 1 - start)) == value * 10 + digit);
                assert(value * 10 + digit > usize::MAX) by (nonlinear_arith)
                    requires
                        value > (usize::MAX - digit) / 10,
                        digit <= 9,
                ;
                lemma_decimal_prefix(d, (i + 1 - start) as int);
            }
            return None;
        }
        value = value * 10 + digit;
        i = i + 1;
        proof {
            assert(all_digits(d.take(i - start)));
        }
    }
    proof {
        assert(d.take(i - start) =~= d);
    }
    Some(value)
}

/// The value of a longer run of digits is at least that of a shorter one.
proof fn lemma_decimal_grows(d: Seq<char>, a: int, b: int)
    requires
        0 <= a <= b <= d.len(),
    ensures
        decimal(d.take(a)) <= decimal(d.take(b)),
    decreases b - a,
{
    if a < b {
        lemma_decimal_grows(d, a, b - 1);
        assert(d.take(b).drop_last() =~= d.take(b - 1));
    }
}

/// The value of all the digits is at least that of a prefix.
proof fn lemma_decimal_prefix(d: Seq<char>, a: int)
    requires
        0 <= a <= d.len(),
    ensures
        decimal(d.take(a)) <= decimal(d),
{
    lemma_decimal_grows(d, a, d.len() as int);
    assert(d.take(d.len() as int) =~= d);
}

/// Decides what the command prompt does with `input` (see
/// `prompt_action_spec`); `validate` tells whether the input was entered,
/// not just typed. The arguments handed to a command are the words of the
/// input split at white space; quoting and escaping are not read.
pub fn command_mode_action(input: &str, commands: &[Command], validate: bool) -> (a: PromptAction)
    ensures
        action_view(a) == prompt_action_spec(input@, commands@, validate),
{
    let parts = words(input);
    let ghost ps = parts@.map_values(|p: Vec<char>| p@);
    if parts.len() == 0 {
        return PromptAction::Nothing;
    }
    if parts.len() == 1 {
        match parse_usize(&parts[0]) {
            Some(n) => {
                return PromptAction::GotoLine(n);
            },
            None => {},
        }
    }
    let name = string_from_chars(parts[0].as_slice());
    let i = find_command(commands, &name);
    if i < commands.len() {
        let mut args: Vec<String> = Vec::new();
        let mut j: usize = 1;
        while j < parts.len()
            invariant
                ps == parts@.map_values(|p: Vec<char>| p@),
                1 <= j <= parts@.len(),
                args@.len() == j - 1,
                forall|m: int| 0 <= m < j - 1 ==> #[trigger] args@[m]@ == ps[m + 1],
            decreases parts.len() - j,
        {
            args.push(string_from_chars(parts[j].as_slice()));
            j = j + 1;
        }
        proof {
            assert(args@.map_values(|a: String| a@) =~= ps.drop_first());
        }
        PromptAction::Run { command: i, args }
    } else if validate {
        PromptAction::NoSuchCommand(name)
    } else {
        PromptAction::Nothing
    }
}

/// The input up to its first space (all of it where it has none).
pub open spec fn first_part(s: Seq<char>) -> Seq<char>
    decreases s.len(),
{
    if s.len() == 0 {
        s
    } else if s[0] == ' ' {
        Seq::empty()
    } else {
        seq![s[0]] + first_part(s.drop_first())
    }
}

/// The help the prompt shows for a command: its description, and the line
/// `Aliases: ` with its aliases, where it has any.
pub open spec fn command_doc_spec(c: Command) -> Seq<char> {
    if c.aliases@.len() == 0 {
        c.description@
    } else {
        c.description@ + "\nAliases: "@ + join_spec(c.aliases@.map_values(|a: String| a@), ", "@)
    }
}

/// The help for what is typed at the prompt: that of the command whose name
/// or alias is the input up to its first space; `None` where no command is
/// called so.
pub fn command_doc(input: &str, commands: &[Command]) -> (r: Option<String>)
    ensures
        ({
            let i = find_command_spec(commands@, first_part(input@));
            match r {
                Some(d) => i < commands@.len() && d@ == command_doc_spec(commands@[i]),
                None => i >= commands@.len(),
            }
        }),
{
    let n = input.unicode_len();
    let mut k: usize = 0;
    let mut part: Vec<char> = Vec::new();
    proof {
        assert(input@.skip(0) =~= input@);
    }
    while k < n && input.get_char(k) != ' '
        invariant
            n == input@.len(),
            0 <= k <= n,
            first_part(input@) == part@ + first_part(input@.skip(k as int)),
        decreases n - k,
    {
        let c = input.get_char(k);
        proof {
            assert(input@.skip(k as int)[0] == c);
            assert(input@.skip(k as int).drop_first() =~= input@.skip(k + 1));
        }
        part.push(c);
        k = k + 1;
        proof {
            assert(first_part(input@) =~= part@ + first_part(input@.skip(k as int)));
        }
    }
    proof {
        if k < n {
            assert(input@.skip(k as int)[0] == ' ');
        }
        assert(first_part(input@.skip(k as int)) =~= Seq::<char>::empty());
        assert(part@ =~= first_part(input@));
    }
    let name = string_from_chars(part.as_slice());
    let i = find_command(commands, &name);
    if i == commands.len() {
        return None;
    }
    let c = &commands[i];
    let mut out: Vec<char> = Vec::new();
    push_str(&mut out, c.description.as_str());
    if c.aliases.len() > 0 {
        push_str(&mut out, "\nAliases: ");
        let aliases = chars_of_all(c.aliases.as_slice());
        push_joined(&mut out, &aliases, ", ");
    }
    proof {
        assert(out@ =~= command_doc_spec(*c));
    }
    Some(string_from_chars(out.as_slice()))
}

/// Index of the first command of `commands` called `name` (their number
/// where there is none).
pub(crate) fn find_command(commands: &[Command], name: &String) -> (i: usize)
    ensures
        i == find_command_spec(commands@, name@),
        i <= commands@.len(),
        i < commands@.len() ==> called(commands@[i as int], name@),
{
    proof {
        lemma_find_command(commands@, name@);
    }
    let mut i: usize = 0;
    while i < commands.len() && !is_called(&commands[i], name)
        invariant
            0 <= i <= commands@.len(),
            forall|j: int| 0 <= j < i ==> !called(#[trigger] commands@[j], name@),
            0 <= find_command_spec(commands@, name@) <= commands@.len(),
            find_command_spec(commands@, name@) < commands@.len() ==> called(
                commands@[find_command_spec(commands@, name@)],
                name@,
            ),
            forall|j: int| 0 <= j < find_command_spec(commands@, name@) ==> !called(#[trigger] commands@[j], name@),
        decreases commands.len() - i,
    {
        i = i + 1;
    }
    i
}

/// Whether command `c` is called `n`.
fn is_called(c: &Command, n: &String) -> (b: bool)
    ensures
        b == called(*c, n@),
{
    if c.name == *n {
        return true;
    }
    let mut i: usize = 0;
    while i < c.aliases.len()
        invariant
            0 <= i <= c.aliases@.len(),
            c.name@ != n@,
            forall|j: int| 0 <= j < i ==> #[trigger] c.aliases@[j]@ != n@,
        decreases c.aliases.len() - i,
    {
        if c.aliases[i] == *n {
            return true;
        }
        i = i + 1;
    }
    false
}

} // verus!
