//! Commands: how an FFmpeg invocation is put together, and how it is shown.
//!
//! A command is kept as separate arguments and never as one string, so a file
//! name with spaces stays one argument. For the preview and the clipboard the
//! same arguments are quoted for a POSIX shell; reading that text as a shell
//! does gives the arguments back (`law_display_round_trip`).

use vstd::prelude::*;
use vstd::string::StringExecFns;
use vstd::utf8::encode_utf8;
use crate::path::{
    beside, extension, file_name, file_stem, get_extension, get_file_name, get_file_stem,
    law_names_split_at_the_last_dot, law_paths_split_and_join, path_beside, tidy, tidy_path,
};
use crate::text::{
    begins, chars_of, copy_opt, copy_text, copy_texts, is_alnum, join2, join3, join_all, joined,
    lowered, opt_text, replace_all, replaced, texts, to_lower,
};

verus! {

/// A fully specified FFmpeg invocation.
#[derive(Debug, PartialEq, Eq)]
pub struct CommandSpec {
    /// Binary to run, such as `ffmpeg` or a configured absolute path.
    pub program: String,
    /// The arguments, one element each, never joined.
    pub args: Vec<String>,
    /// Commands that must run first, such as a palette pass.
    pub pre_commands: Vec<CommandSpec>,
    /// Working directory, when it is not the current one.
    pub working_dir: Option<String>,
    /// List file that is written before the main command runs.
    pub concat_list: Option<ConcatListFile>,
    /// One plain-English explanation per explained flag.
    pub explanation: Vec<FlagExplanation>,
}

/// A list file for the `concat` demuxer: where it goes and what it lists.
#[derive(Debug, Clone, PartialEq, Eq)]
pub struct ConcatListFile {
    /// Where the list is written.
    pub path: String,
    /// Inputs in join order.
    pub inputs: Vec<String>,
}

/// One flag, and what it means in plain English.
#[derive(Debug, Clone, PartialEq, Eq)]
pub struct FlagExplanation {
    /// The flag as shown, with its value.
    pub flag: String,
    /// What it means.
    pub plain_english: String,
}

/// What a command says, apart from how it is stored.
#[verifier::ext_equal]
pub struct Command {
    pub program: Seq<char>,
    pub args: Seq<Seq<char>>,
    pub pre: Seq<Pass>,
    pub working_dir: Option<Seq<char>>,
    pub concat_list: Option<ListFile>,
    pub explanation: Seq<(Seq<char>, Seq<char>)>,
}

/// What a preliminary command says. It is `plain` when it has no preliminary
/// commands, working directory or list file of its own.
#[verifier::ext_equal]
pub struct Pass {
    pub program: Seq<char>,
    pub args: Seq<Seq<char>>,
    pub explanation: Seq<(Seq<char>, Seq<char>)>,
    pub plain: bool,
}

/// What a list file says.
#[verifier::ext_equal]
pub struct ListFile {
    pub path: Seq<char>,
    pub inputs: Seq<Seq<char>>,
}

impl ConcatListFile {
    pub open spec fn view(&self) -> ListFile {
        ListFile { path: self.path@, inputs: texts(self.inputs@) }
    }
}

impl FlagExplanation {
    pub open spec fn view(&self) -> (Seq<char>, Seq<char>) {
        (self.flag@, self.plain_english@)
    }
}

/// The views of explanations.
pub open spec fn notes(v: Seq<FlagExplanation>) -> Seq<(Seq<char>, Seq<char>)> {
    v.map_values(|e: FlagExplanation| e@)
}

impl CommandSpec {
    /// This command as a preliminary one.
    pub open spec fn pass(&self) -> Pass {
        Pass {
            program: self.program@,
            args: texts(self.args@),
            explanation: notes(self.explanation@),
            plain: self.pre_commands@.len() == 0 && self.working_dir is None
                && self.concat_list is None,
        }
    }

    pub open spec fn view(&self) -> Command {
        Command {
            program: self.program@,
            args: texts(self.args@),
            pre: self.pre_commands@.map_values(|c: CommandSpec| c.pass()),
            working_dir: opt_text(self.working_dir),
            concat_list: match self.concat_list {
                Some(list) => Some(list@),
                None => None,
            },
            explanation: notes(self.explanation@),
        }
    }
}

impl Command {
    /// A command without arguments.
    pub open spec fn new(program: Seq<char>) -> Command {
        Command {
            program,
            args: Seq::empty(),
            pre: Seq::empty(),
            working_dir: None,
            concat_list: None,
            explanation: Seq::empty(),
        }
    }

    /// With one more argument.
    pub open spec fn arg(self, a: Seq<char>) -> Command {
        Command { args: self.args.push(a), ..self }
    }

    /// With a flag and its value as two more arguments, explained together.
    pub open spec fn flag_value(self, flag: Seq<char>, value: Seq<char>, why: Seq<char>) -> Command {
        Command {
            args: self.args.push(flag).push(value),
            explanation: self.explanation.push((flag + seq![' '] + value, why)),
            ..self
        }
    }

    /// With an explained flag as one more argument.
    pub open spec fn flag(self, flag: Seq<char>, why: Seq<char>) -> Command {
        Command {
            args: self.args.push(flag),
            explanation: self.explanation.push((flag, why)),
            ..self
        }
    }

    /// With an explanation that belongs to no argument.
    pub open spec fn note(self, flag: Seq<char>, why: Seq<char>) -> Command {
        Command { explanation: self.explanation.push((flag, why)), ..self }
    }

    /// With one more preliminary command.
    pub open spec fn after(self, pass: Pass) -> Command {
        Command { pre: self.pre.push(pass), ..self }
    }

    /// With a list file.
    pub open spec fn listing(self, list: ListFile) -> Command {
        Command { concat_list: Some(list), ..self }
    }

    /// As a preliminary command.
    pub open spec fn as_pass(self) -> Pass {
        Pass {
            program: self.program,
            args: self.args,
            explanation: self.explanation,
            plain: self.pre.len() == 0 && self.working_dir is None && self.concat_list is None,
        }
    }

    /// With the flags that every command carries: no banner, no question about
    /// overwriting (the terminal is taken), and machine-readable progress.
    pub open spec fn globals(self, overwrite: bool) -> Command {
        self.arg("-hide_banner"@).arg(
            if overwrite {
                "-y"@
            } else {
                "-n"@
            },
        ).arg("-progress"@).arg("pipe:1"@).arg("-nostats"@)
    }
}

impl CommandSpec {
    /// Copies a command.
    pub fn copy(&self) -> (r: Self)
        ensures
            r@ == self@,
            r.pass() == self.pass(),
        decreases self,
    {
        let mut pre: Vec<CommandSpec> = Vec::new();
        let mut i: usize = 0;
        while i < self.pre_commands.len()
            invariant
                i <= self.pre_commands@.len(),
                pre@.len() == i,
                forall|j: int| 0 <= j < i ==> (#[trigger] pre@[j]).pass() == self.pre_commands@[j].pass(),
            decreases self.pre_commands@.len() - i,
        {
            let c = self.pre_commands[i].copy();
            pre.push(c);
            i = i + 1;
        }
        let mut explanation: Vec<FlagExplanation> = Vec::new();
        let mut k: usize = 0;
        while k < self.explanation.len()
            invariant
                k <= self.explanation@.len(),
                notes(explanation@) =~= notes(self.explanation@).take(k as int),
            decreases self.explanation@.len() - k,
        {
            let ghost before = notes(explanation@);
            let e = FlagExplanation {
                flag: copy_text(self.explanation[k].flag.as_str()),
                plain_english: copy_text(self.explanation[k].plain_english.as_str()),
            };
            let ghost v = e@;
            explanation.push(e);
            assert(notes(explanation@) =~= before.push(v));
            k = k + 1;
        }
        assert(notes(explanation@) =~= notes(self.explanation@));
        let r = CommandSpec {
            program: copy_text(self.program.as_str()),
            args: copy_texts(self.args.as_slice()),
            pre_commands: pre,
            working_dir: copy_opt(&self.working_dir),
            concat_list: match &self.concat_list {
                Some(list) => Some(
                    ConcatListFile {
                        path: copy_text(list.path.as_str()),
                        inputs: copy_texts(list.inputs.as_slice()),
                    },
                ),
                None => None,
            },
            explanation,
        };
        assert(r@.pre =~= self@.pre);
        r
    }
}

impl CommandSpec {
    /// Empty command for `program`.
    pub fn new(program: &str) -> (r: Self)
        ensures
            r@ == Command::new(program@),
    {
        let r = CommandSpec {
            program: copy_text(program),
            args: Vec::new(),
            pre_commands: Vec::new(),
            working_dir: None,
            concat_list: None,
            explanation: Vec::new(),
        };
        assert(r@ =~~= Command::new(program@));
        r
    }

    /// Pushes one argument.
    pub fn arg(&mut self, arg: &str) -> (r: &mut Self)
        ensures
            r@ == old(self)@.arg(arg@),
            *final(self) == *final(r),
    {
        let ghost before = *self;
        self.args.push(copy_text(arg));
        assert(texts(self.args@) =~= texts(before.args@).push(arg@));
        assert(self@ =~~= before@.arg(arg@));
        self
    }

    /// Pushes a flag and records its explanation.
    pub fn flag(&mut self, flag: &str, plain_english: &str) -> (r: &mut Self)
        ensures
            r@ == old(self)@.flag(flag@, plain_english@),
            *final(self) == *final(r),
    {
        let ghost before = *self;
        self.args.push(copy_text(flag));
        self.explanation.push(
            FlagExplanation { flag: copy_text(flag), plain_english: copy_text(plain_english) },
        );
        assert(texts(self.args@) =~= texts(before.args@).push(flag@));
        assert(notes(self.explanation@) =~= notes(before.explanation@).push(
            (flag@, plain_english@),
        ));
        assert(self@ =~~= before@.flag(flag@, plain_english@));
        self
    }

    /// Pushes a flag and its value as two arguments, explained together.
    pub fn flag_value(&mut self, flag: &str, value: &str, plain_english: &str) -> (r: &mut Self)
        ensures
            r@ == old(self)@.flag_value(flag@, value@, plain_english@),
            *final(self) == *final(r),
    {
        let ghost before = *self;
        self.args.push(copy_text(flag));
        self.args.push(copy_text(value));
        let mut shown = copy_text(flag);
        shown.push(' ');
        assert(shown@ =~= flag@ + seq![' ']);
        shown.append(value);
        self.explanation.push(
            FlagExplanation { flag: shown, plain_english: copy_text(plain_english) },
        );
        assert(texts(self.args@) =~= texts(before.args@).push(flag@).push(value@));
        assert(notes(self.explanation@) =~= notes(before.explanation@).push(
            (flag@ + seq![' '] + value@, plain_english@),
        ));
        assert(self@ =~~= before@.flag_value(flag@, value@, plain_english@));
        self
    }
}


impl CommandSpec {
    /// Records an explanation that belongs to no argument.
    pub fn note(&mut self, flag: &str, plain_english: &str)
        ensures
            final(self)@ == old(self)@.note(flag@, plain_english@),
    {
        let ghost before = *self;
        self.explanation.push(
            FlagExplanation { flag: copy_text(flag), plain_english: copy_text(plain_english) },
        );
        assert(notes(self.explanation@) =~= notes(before.explanation@).push(
            (flag@, plain_english@),
        ));
        assert(self@ =~~= before@.note(flag@, plain_english@));
    }

    /// Adds a preliminary command behind those already there.
    pub fn run_first(&mut self, pre: CommandSpec)
        ensures
            final(self)@ == old(self)@.after(pre@.as_pass()),
    {
        let ghost before = *self;
        self.pre_commands.push(pre);
        assert(self@ =~~= before@.after(pre@.as_pass()));
    }

    /// Attaches a list file.
    pub fn attach_list(&mut self, path: &str, inputs: &[String])
        ensures
            final(self)@ == old(self)@.listing(ListFile { path: path@, inputs: texts(inputs@) }),
    {
        let ghost before = *self;
        self.concat_list = Some(
            ConcatListFile { path: copy_text(path), inputs: crate::text::copy_texts(inputs) },
        );
        assert(self@ =~~= before@.listing(ListFile { path: path@, inputs: texts(inputs@) }));
    }

    /// Program and arguments, as a process receives them.
    pub fn to_argv(&self) -> (r: Vec<String>)
        ensures
            texts(r@) == seq![self@.program] + self@.args,
    {
        let mut argv: Vec<String> = Vec::new();
        argv.push(copy_text(self.program.as_str()));
        let mut i: usize = 0;
        while i < self.args.len()
            invariant
                i <= self.args@.len(),
                texts(argv@) == seq![self.program@] + texts(self.args@).take(i as int),
            decreases self.args@.len() - i,
        {
            let ghost before = texts(argv@);
            argv.push(copy_text(self.args[i].as_str()));
            proof {
                assert(texts(argv@) =~= before.push(self.args@[i as int]@));
                assert(texts(self.args@).take(i + 1) =~= texts(self.args@).take(i as int).push(
                    self.args@[i as int]@,
                ));
            }
            i = i + 1;
            assert(texts(argv@) =~= seq![self.program@] + texts(self.args@).take(i as int));
        }
        assert(texts(self.args@).take(self.args@.len() as int) =~= texts(self.args@));
        argv
    }

    /// The quoted text of every command, preliminary ones first, one per line.
    pub fn to_display(&self) -> (r: String)
        ensures
            r@ == displayed(self@),
    {
        let mut shown: Vec<String> = Vec::new();
        let mut i: usize = 0;
        while i < self.pre_commands.len()
            invariant
                i <= self.pre_commands@.len(),
                texts(shown@) == pass_lines(self@.pre.take(i as int)),
            decreases self.pre_commands@.len() - i,
        {
            let ghost before = texts(shown@);
            let pre = &self.pre_commands[i];
            shown.push(display_command(pre.program.as_str(), pre.args.as_slice()));
            proof {
                let line = rendered(pre.program@, texts(pre.args@)).0;
                assert(texts(shown@) =~= before.push(line));
                assert(self@.pre[i as int] == pre.pass());
                assert(pass_lines(self@.pre.take(i + 1)) =~= before.push(line));
            }
            i = i + 1;
        }
        let ghost before = texts(shown@);
        shown.push(display_command(self.program.as_str(), self.args.as_slice()));
        proof {
            reveal_strlit("\n");
            assert("\n"@ =~= seq!['\n']);
            assert(self@.pre.take(self@.pre.len() as int) =~= self@.pre);
            assert(texts(shown@) =~= before.push(rendered(self@.program, self@.args).0));
        }
        join_all(&shown, "\n")
    }

    /// The output operand: builders always push it last.
    pub fn output_path(&self) -> (r: Option<String>)
        ensures
            opt_text(r) == (if self@.args.len() > 0 {
                Some(self@.args.last())
            } else {
                None
            }),
    {
        if self.args.len() == 0 {
            None
        } else {
            Some(copy_text(self.args[self.args.len() - 1].as_str()))
        }
    }
}

/// Appends the flags that every command carries: `-hide_banner`, `-y` or `-n`
/// (FFmpeg must never ask on the terminal), and `-progress pipe:1 -nostats`.
pub fn push_globals(spec: &mut CommandSpec, overwrite: bool)
    ensures
        final(spec)@ == old(spec)@.globals(overwrite),
{
    spec.arg("-hide_banner");
    if overwrite {
        spec.arg("-y");
    } else {
        spec.arg("-n");
    }
    spec.arg("-progress");
    spec.arg("pipe:1");
    spec.arg("-nostats");
}

// ---------------------------------------------------------------------------
// Showing a command
// ---------------------------------------------------------------------------

/// The characters that mean nothing to a shell.
pub open spec fn shell_safe(c: char) -> bool {
    is_alnum(c) || c == '_' || c == '@' || c == '%' || c == '+' || c == '=' || c == ':' || c == ','
        || c == '.' || c == '/' || c == '-'
}

/// Whether a text can stand in a shell command as it is.
pub open spec fn all_safe(s: Seq<char>) -> bool {
    forall|i: int| 0 <= i < s.len() ==> shell_safe(#[trigger] s[i])
}

/// One argument for a POSIX shell: as it is when every character is safe, else
/// in single quotes, each quote inside written as `'\''`.
pub open spec fn quoted(s: Seq<char>) -> Seq<char> {
    if s.len() == 0 {
        seq!['\'', '\'']
    } else if all_safe(s) {
        s
    } else {
        seq!['\''] + replaced(s, seq!['\''], seq!['\'', '\\', '\'', '\'']) + seq!['\'']
    }
}

/// Quotes one argument for display.
pub fn shell_quote(arg: &str) -> (r: String)
    ensures
        r@ == quoted(arg@),
{
    let x = chars_of(arg);
    if x.len() == 0 {
        proof {
            reveal_strlit("''");
            assert("''"@ =~= seq!['\'', '\'']);
        }
        return copy_text("''");
    }
    let mut safe = true;
    let mut i: usize = 0;
    while i < x.len()
        invariant
            i <= x@.len(),
            x@ == arg@,
            safe == (forall|j: int| 0 <= j < i ==> shell_safe(#[trigger] x@[j])),
        decreases x@.len() - i,
    {
        let c = x[i];
        let ok = ('a' <= c && c <= 'z') || ('A' <= c && c <= 'Z') || ('0' <= c && c <= '9') || c
            == '_' || c == '@' || c == '%' || c == '+' || c == '=' || c == ':' || c == ',' || c
            == '.' || c == '/' || c == '-';
        assert(ok == shell_safe(x@[i as int]));
        safe = safe && ok;
        i = i + 1;
    }
    if safe {
        return copy_text(arg);
    }
    proof {
        reveal_strlit("'");
        reveal_strlit("'\\''");
        assert("'"@ =~= seq!['\'']);
        assert("'\\''"@ =~= seq!['\'', '\\', '\'', '\'']);
    }
    let inside = replace_all(arg, "'", "'\\''");
    join3("'", inside.as_str(), "'")
}

/// Whether a character makes a Windows shell split or read an argument.
pub open spec fn windows_special(c: char) -> bool {
    c == ' ' || c == '\t' || c == '"' || c == '&' || c == '|' || c == '<' || c == '>' || c == '^'
        || c == '%'
}

/// An argument as shown to a Windows shell: in double quotes when it holds a
/// special character or nothing, with its own quotes escaped.
pub open spec fn windows_quoted(arg: Seq<char>) -> Seq<char> {
    if arg.len() == 0 {
        "\"\""@
    } else if exists|i: int| 0 <= i < arg.len() && windows_special(#[trigger] arg[i]) {
        "\""@ + replaced(arg, "\""@, "\\\""@) + "\""@
    } else {
        arg
    }
}

/// Quotes an argument for a Windows shell.
#[verifier::loop_isolation(false)]
pub fn windows_quote(arg: &str) -> (r: String)
    ensures
        r@ == windows_quoted(arg@),
{
    let x = chars_of(arg);
    if x.len() == 0 {
        return copy_text("\"\"");
    }
    let mut i: usize = 0;
    while i < x.len()
        invariant
            i <= x@.len(),
            forall|j: int| 0 <= j < i ==> !windows_special(#[trigger] x@[j]),
        decreases x@.len() - i,
    {
        let c = x[i];
        if c == ' ' || c == '\t' || c == '"' || c == '&' || c == '|' || c == '<' || c == '>' || c
            == '^' || c == '%' {
            assert(windows_special(arg@[i as int]));
            proof {
                reveal_strlit("\"");
            }
            return join3("\"", replace_all(arg, "\"", "\\\"").as_str(), "\"");
        }
        i = i + 1;
    }
    copy_text(arg)
}

/// How many bytes a text takes.
pub open spec fn width(s: Seq<char>) -> nat {
    encode_utf8(s).len()
}

/// Counts the bytes of a text.
pub fn width_of(s: &str) -> (r: usize)
    ensures
        r == width(s@),
{
    s.as_bytes().len()
}

/// The widest line of a displayed command, in bytes, before it is broken.
pub const WRAP_WIDTH: usize = 76;

/// The displayed command and the width of its last line: the quoted program,
/// then each quoted argument behind a space, or behind ` \` and an indented
/// new line where the line would grow past the wrap width.
pub open spec fn rendered(program: Seq<char>, args: Seq<Seq<char>>) -> (Seq<char>, nat)
    decreases args.len(),
{
    if args.len() == 0 {
        (quoted(program), width(quoted(program)))
    } else {
        let (text, len) = rendered(program, args.drop_last());
        let q = quoted(args.last());
        if len + 1 + width(q) > WRAP_WIDTH && len > 0 {
            (text + seq![' ', '\\', '\n', ' ', ' '] + q, 2 + width(q))
        } else {
            (text + seq![' '] + q, len + 1 + width(q))
        }
    }
}

/// The displayed texts of preliminary commands.
pub open spec fn pass_lines(pre: Seq<Pass>) -> Seq<Seq<char>> {
    pre.map_values(|p: Pass| rendered(p.program, p.args).0)
}

/// The displayed text of a whole command.
pub open spec fn displayed(c: Command) -> Seq<char> {
    joined(pass_lines(c.pre).push(rendered(c.program, c.args).0), seq!['\n'])
}

/// Renders one command as shell text, broken at argument boundaries.
pub fn display_command(program: &str, args: &[String]) -> (r: String)
    ensures
        r@ == rendered(program@, texts(args@)).0,
{
    let mut out = shell_quote(program);
    let mut line_len: u128 = width_of(out.as_str()) as u128;
    let mut i: usize = 0;
    let ghost all = texts(args@);
    assert(all.take(0) =~= Seq::<Seq<char>>::empty());
    while i < args.len()
        invariant
            i <= args@.len(),
            all == texts(args@),
            (out@, line_len as nat) == rendered(program@, all.take(i as int)),
            line_len <= usize::MAX + 76,
        decreases args@.len() - i,
    {
        let quoted_arg = shell_quote(args[i].as_str());
        let len: u128 = width_of(quoted_arg.as_str()) as u128;
        proof {
            assert(all.take(i + 1).drop_last() =~= all.take(i as int));
            assert(all.take(i + 1).last() == args@[i as int]@);
        }
        if line_len + 1 + len > WRAP_WIDTH as u128 && line_len > 0 {
            proof {
                reveal_strlit(" \\\n  ");
                assert(" \\\n  "@ =~= seq![' ', '\\', '\n', ' ', ' ']);
            }
            out.append(" \\\n  ");
            line_len = 2 + len;
        } else {
            out.push(' ');
            line_len = line_len + 1 + len;
        }
        let ghost before = out@;
        out.append(quoted_arg.as_str());
        proof {
            let text = rendered(program@, all.take(i as int)).0;
            assert(text.push(' ') =~= text + seq![' ']);
        }
        i = i + 1;
    }
    assert(all.take(all.len() as int) =~= all);
    out
}

// ---------------------------------------------------------------------------
// Operands
// ---------------------------------------------------------------------------

/// A path as an operand: a leading dash gets `./` before it, so that a file
/// name never reads as a flag.
pub open spec fn operand(p: Seq<char>) -> Seq<char> {
    if p.len() > 0 && p[0] == '-' {
        seq!['.', '/'] + p
    } else {
        p
    }
}

/// Makes a path safe as an operand.
pub fn safe_path_arg(path: &str) -> (r: String)
    ensures
        r@ == operand(path@),
{
    let x = chars_of(path);
    if x.len() > 0 && x[0] == '-' {
        proof {
            reveal_strlit("./");
            assert("./"@ =~= seq!['.', '/']);
        }
        join2("./", path)
    } else {
        copy_text(path)
    }
}

/// The optional text, or another one in its place.
pub open spec fn or_else(o: Option<Seq<char>>, other: Seq<char>) -> Seq<char> {
    match o {
        Some(s) => s,
        None => other,
    }
}

/// `{stem}_{suffix}.{ext}` beside the input.
pub open spec fn output_name(input: Seq<char>, suffix: Seq<char>, ext: Seq<char>) -> Seq<char> {
    beside(
        input,
        or_else(file_stem(input), "output"@) + seq!['_'] + suffix + seq!['.'] + ext,
    )
}

/// The output path for an input when nobody chose one.
pub fn default_output_name(input: &str, suffix: &str, ext: &str) -> (r: String)
    ensures
        r@ == output_name(input@, suffix@, ext@),
{
    let mut name = match get_file_stem(input) {
        Some(stem) => stem,
        None => copy_text("output"),
    };
    let ghost stem = name@;
    name.push('_');
    assert(name@ =~= stem + seq!['_']);
    name.append(suffix);
    let ghost head = name@;
    name.push('.');
    assert(name@ =~= head + seq!['.']);
    name.append(ext);
    path_beside(input, name.as_str())
}

/// The container extension of a path in lower case; empty when it has none.
pub open spec fn container(p: Seq<char>) -> Seq<char> {
    match extension(p) {
        Some(e) => lowered(e),
        None => Seq::empty(),
    }
}

/// The container extension of a path, in lower case.
pub fn input_extension(input: &str) -> (r: String)
    ensures
        r@ == container(input@),
{
    match get_extension(input) {
        Some(e) => to_lower(e.as_str()),
        None => String::new(),
    }
}

/// A path that gains the extension of `like` when it has none of its own.
pub open spec fn with_extension_of(p: Seq<char>, like: Seq<char>) -> Seq<char> {
    if extension(p) is Some || file_name(p) is None || extension(like) is None {
        p
    } else {
        tidy(p) + seq!['.'] + extension(like)->0
    }
}

/// The output that a build writes: the chosen path, with the default's
/// extension when it has none, or the default itself when nothing was chosen.
pub open spec fn chosen_output(output: Option<Seq<char>>, default: Seq<char>) -> Seq<char> {
    match output {
        Some(p) => if p.len() == 0 {
            default
        } else {
            with_extension_of(p, default)
        },
        None => default,
    }
}

/// Settles the output path of a build.
pub fn resolve_output(output: Option<&String>, default: String) -> (r: String)
    ensures
        r@ == chosen_output(
            match output {
                Some(p) => Some(p@),
                None => None,
            },
            default@,
        ),
{
    match output {
        Some(p) => {
            if p.as_str().is_empty() {
                return default;
            }
            if get_extension(p.as_str()).is_some() || get_file_name(p.as_str()).is_none() {
                return copy_text(p.as_str());
            }
            match get_extension(default.as_str()) {
                Some(e) => {
                    let mut out = tidy_path(p.as_str());
                    let ghost before = out@;
                    out.push('.');
                    assert(out@ =~= before + seq!['.']);
                    out.append(e.as_str());
                    out
                },
                None => copy_text(p.as_str()),
            }
        },
        None => default,
    }
}


// ---------------------------------------------------------------------------
// Laws
// ---------------------------------------------------------------------------

/// How a POSIX shell reads a text made of words, single quotes, backslashes
/// and blanks: `word` is what has been read of the current word, `inside`
/// tells whether a single quote is open. Nothing when a character with another
/// meaning stands unquoted, or a quote stays open.
pub open spec fn shell_read(s: Seq<char>, word: Option<Seq<char>>, inside: bool) -> Option<
    Seq<Seq<char>>,
>
    decreases s.len(),
{
    if s.len() == 0 {
        if inside {
            None
        } else {
            match word {
                Some(w) => Some(seq![w]),
                None => Some(Seq::empty()),
            }
        }
    } else {
        let c = s[0];
        let read = or_else(word, Seq::empty());
        if inside {
            if c == '\'' {
                shell_read(s.skip(1), Some(read), false)
            } else {
                shell_read(s.skip(1), Some(read.push(c)), true)
            }
        } else if c == '\'' {
            shell_read(s.skip(1), Some(read), true)
        } else if c == '\\' {
            if s.len() == 1 {
                None
            } else if s[1] == '\n' {
                shell_read(s.skip(2), word, false)
            } else {
                shell_read(s.skip(2), Some(read.push(s[1])), false)
            }
        } else if c == ' ' || c == '\n' {
            match word {
                Some(w) => match shell_read(s.skip(1), None, false) {
                    Some(rest) => Some(seq![w] + rest),
                    None => None,
                },
                None => shell_read(s.skip(1), None, false),
            }
        } else if shell_safe(c) {
            shell_read(s.skip(1), Some(read.push(c)), false)
        } else {
            None
        }
    }
}

/// The words that a shell reads in a text.
pub open spec fn shell_words(s: Seq<char>) -> Option<Seq<Seq<char>>> {
    shell_read(s, None, false)
}

pub proof fn lemma_read_safe(s: Seq<char>, rest: Seq<char>, w: Seq<char>)
    requires
        all_safe(s),
    ensures
        shell_read(s + rest, Some(w), false) == shell_read(rest, Some(w + s), false),
    decreases s.len(),
{
    if s.len() == 0 {
        assert(s + rest =~= rest);
        assert(w + s =~= w);
    } else {
        assert(shell_safe(s[0]));
        let t = s.skip(1);
        assert(all_safe(t)) by {
            assert forall|i: int| 0 <= i < t.len() implies shell_safe(#[trigger] t[i]) by {
                assert(t[i] == s[i + 1]);
            }
        }
        assert((s + rest)[0] == s[0]);
        assert((s + rest).skip(1) =~= t + rest);
        lemma_read_safe(t, rest, w.push(s[0]));
        assert(w.push(s[0]) + t =~= w + s);
    }
}

pub proof fn lemma_read_quoted(s: Seq<char>, rest: Seq<char>, w: Seq<char>)
    ensures
        shell_read(
            replaced(s, seq!['\''], seq!['\'', '\\', '\'', '\'']) + (seq!['\''] + rest),
            Some(w),
            true,
        ) == shell_read(rest, Some(w + s), false),
    decreases s.len(),
{
    let pat = seq!['\''];
    let with = seq!['\'', '\\', '\'', '\''];
    let end = seq!['\''] + rest;
    let all = replaced(s, pat, with) + end;
    if s.len() == 0 {
        assert(all =~= end);
        assert(end.skip(1) =~= rest);
        assert(w + s =~= w);
    } else {
        let t = s.skip(1);
        let tail = replaced(t, pat, with) + end;
        assert(begins(s, pat) == (s[0] == '\'')) by {
            if s[0] == '\'' {
                assert(s.take(1) =~= pat);
            } else if s.take(1) == pat {
                assert(s.take(1)[0] == s[0]);
            }
        }
        if s[0] == '\'' {
            assert(all =~= with + tail);
            assert(all.skip(1)[0] == '\\');
            assert(all.skip(1)[1] == '\'');
            assert(all.skip(1).skip(2)[0] == '\'');
            assert(all.skip(1).skip(2).skip(1) =~= tail);
            lemma_read_quoted(t, rest, w.push('\''));
            assert(w.push('\'') + t =~= w + s);
            reveal_with_fuel(shell_read, 4);
        } else {
            assert(all =~= seq![s[0]] + tail);
            assert(all[0] == s[0]);
            assert(all.skip(1) =~= tail);
            lemma_read_quoted(t, rest, w.push(s[0]));
            assert(w.push(s[0]) + t =~= w + s);
        }
    }
}

/// A quoted argument reads as exactly that argument.
pub proof fn law_quote_round_trip(s: Seq<char>, rest: Seq<char>)
    ensures
        shell_read(quoted(s) + rest, None, false) == shell_read(rest, Some(s), false),
        shell_words(quoted(s)) == Some(seq![s]),
{
    lemma_read_one(s, rest);
    lemma_read_one(s, Seq::empty());
    assert(quoted(s) + Seq::<char>::empty() =~= quoted(s));
}

proof fn lemma_read_one(s: Seq<char>, rest: Seq<char>)
    ensures
        shell_read(quoted(s) + rest, None, false) == shell_read(rest, Some(s), false),
{
    let q = quoted(s);
    if s.len() == 0 {
        assert(q + rest =~= seq!['\'', '\''] + rest);
        assert((q + rest).skip(1) =~= seq!['\''] + rest);
        assert((q + rest).skip(1).skip(1) =~= rest);
        assert(s =~= Seq::empty());
        reveal_with_fuel(shell_read, 3);
    } else if all_safe(s) {
        assert(shell_safe(s[0]));
        let t = s.skip(1);
        assert(all_safe(t)) by {
            assert forall|i: int| 0 <= i < t.len() implies shell_safe(#[trigger] t[i]) by {
                assert(t[i] == s[i + 1]);
            }
        }
        assert((s + rest).skip(1) =~= t + rest);
        lemma_read_safe(t, rest, Seq::<char>::empty().push(s[0]));
        assert(Seq::<char>::empty().push(s[0]) + t =~= s);
    } else {
        let inner = replaced(s, seq!['\''], seq!['\'', '\\', '\'', '\'']);
        assert(q + rest =~= seq!['\''] + (inner + (seq!['\''] + rest)));
        assert((q + rest).skip(1) =~= inner + (seq!['\''] + rest));
        lemma_read_quoted(s, rest, Seq::empty());
        assert(Seq::<char>::empty() + s =~= s);
    }
}

proof fn lemma_read_rendered(program: Seq<char>, args: Seq<Seq<char>>, rest: Seq<char>)
    ensures
        ({
            let argv = seq![program] + args;
            shell_read(rendered(program, args).0 + rest, None, false) == (match shell_read(
                rest,
                Some(argv.last()),
                false,
            ) {
                Some(more) => Some(argv.drop_last() + more),
                None => None,
            })
        }),
    decreases args.len(),
{
    let argv = seq![program] + args;
    if args.len() == 0 {
        lemma_read_one(program, rest);
        assert(argv.drop_last() =~= Seq::<Seq<char>>::empty());
        assert(argv.last() == program);
        match shell_read(rest, Some(program), false) {
            Some(more) => {
                assert(argv.drop_last() + more =~= more);
            },
            None => {},
        }
    } else {
        let front = args.drop_last();
        let q = quoted(args.last());
        let (text, len) = rendered(program, front);
        let broken = len + 1 + width(q) > WRAP_WIDTH && len > 0;
        let sep = if broken {
            seq![' ', '\\', '\n', ' ', ' ']
        } else {
            seq![' ']
        };
        let after = q + rest;
        let next = sep + after;
        assert(rendered(program, args).0 + rest =~= text + next);
        lemma_read_rendered(program, front, next);
        let w = (seq![program] + front).last();
        lemma_read_one(args.last(), rest);
        // The separator ends the previous word and begins no other.
        assert(shell_read(next, Some(w), false) == (match shell_read(after, None, false) {
            Some(more) => Some(seq![w] + more),
            None => None,
        })) by {
            if broken {
                let a = next.skip(1);
                assert(next[0] == ' ');
                assert(a[0] == '\\' && a[1] == '\n');
                assert(a.skip(2)[0] == ' ');
                assert(a.skip(2).skip(1)[0] == ' ');
                assert(a.skip(2).skip(1).skip(1) =~= after);
                reveal_with_fuel(shell_read, 5);
            } else {
                assert(next[0] == ' ');
                assert(next.skip(1) =~= after);
            }
        }
        assert(argv.last() == args.last());
        assert(argv.drop_last() =~= (seq![program] + front).drop_last().push(w));
        match shell_read(rest, Some(args.last()), false) {
            Some(more) => {
                assert((seq![program] + front).drop_last() + (seq![w] + more) =~= argv.drop_last()
                    + more);
            },
            None => {},
        }
    }
}

/// What the preview shows is what runs: a shell reads the displayed command as
/// the program and exactly its arguments, wherever the lines were broken.
pub proof fn law_display_round_trip(program: Seq<char>, args: Seq<Seq<char>>)
    ensures
        shell_words(rendered(program, args).0) == Some(seq![program] + args),
{
    lemma_read_rendered(program, args, Seq::empty());
    let argv = seq![program] + args;
    assert(rendered(program, args).0 + Seq::<char>::empty() =~= rendered(program, args).0);
    assert(argv.drop_last() + seq![argv.last()] =~= argv);
}

/// A file operand never reads as a flag.
pub proof fn law_operand_is_no_flag(p: Seq<char>)
    ensures
        operand(p).len() > 0 ==> operand(p)[0] != '-',
        operand(operand(p)) == operand(p),
{
}

/// An output that was typed keeps its name; only where it has no extension does
/// it gain that of the default.
pub proof fn law_typed_outputs_keep_their_name(
    dir: Seq<char>,
    name: Seq<char>,
    ext: Seq<char>,
    default: Seq<char>,
)
    requires
        dir.len() > 0,
        tidy(dir) == dir,
        dir.last() != '/',
        name.len() > 0,
        !name.contains('/'),
        !name.contains('.'),
        !ext.contains('/'),
        !ext.contains('.'),
        extension(default) is Some,
    ensures
        chosen_output(Some(dir + seq!['/'] + name), default) == dir + seq!['/'] + name + seq!['.']
            + extension(default)->0,
        chosen_output(Some(dir + seq!['/'] + (name + seq!['.'] + ext)), default) == dir + seq!['/']
            + (name + seq!['.'] + ext),
        chosen_output(None, default) == default,
        chosen_output(Some(Seq::empty()), default) == default,
{
    let none = Seq::<char>::empty();
    let full = name + seq!['.'] + ext;
    assert forall|j: int| 0 <= j < name.len() implies name[j] != '.' && name[j] != '/' by {
        assert(name.contains(name[j]));
    }
    assert(name != seq!['.'] && name != seq!['.', '.']) by {
        assert(name[0] != '.');
    }
    assert(full != seq!['.'] && full != seq!['.', '.']) by {
        assert(full[0] == name[0]);
    }
    assert(!full.contains('/')) by {
        assert forall|j: int| 0 <= j < full.len() implies full[j] != '/' by {
            if j < name.len() {
                assert(full[j] == name[j]);
            } else if j > name.len() {
                assert(full[j] == ext[j - name.len() - 1]);
                assert(ext.contains(ext[j - name.len() - 1]));
            }
        }
    }
    law_paths_split_and_join(dir, name, none);
    law_paths_split_and_join(dir, full, none);
    law_names_split_at_the_last_dot(name, name);
    law_names_split_at_the_last_dot(name, ext);
    lemma_tidied(dir, name);
}

/// A path that ends in a name is tidy.
proof fn lemma_tidied(dir: Seq<char>, name: Seq<char>)
    requires
        name.len() > 0,
        !name.contains('/'),
        !name.contains('.'),
    ensures
        tidy(dir + seq!['/'] + name) == dir + seq!['/'] + name,
{
    let p = dir + seq!['/'] + name;
    assert(p.last() == name[name.len() - 1]);
    assert(name.contains(name[name.len() - 1]));
}

/// What is written by default stands beside its input, under the input's name
/// with the operation's mark; it is never the input itself.
pub proof fn law_default_outputs_stand_beside_their_input(
    dir: Seq<char>,
    stem: Seq<char>,
    kind: Seq<char>,
    mark: Seq<char>,
    ext: Seq<char>,
)
    requires
        dir.len() > 0,
        tidy(dir) == dir,
        dir.last() != '/',
        stem.len() > 0,
        !stem.contains('/'),
        !kind.contains('/'),
        !kind.contains('.'),
        kind.len() > 0,
    ensures
        ({
            let input = dir + seq!['/'] + (stem + seq!['.'] + kind);
            let output = output_name(input, mark, ext);
            &&& output == dir + seq!['/'] + (stem + seq!['_'] + mark + seq!['.'] + ext)
            &&& output != input
        }),
{
    let name = stem + seq!['.'] + kind;
    let made = stem + seq!['_'] + mark + seq!['.'] + ext;
    let input = dir + seq!['/'] + name;
    let output = dir + seq!['/'] + made;
    assert(name.last() == kind[kind.len() - 1]);
    assert(kind.contains(kind[kind.len() - 1]));
    assert(name != seq!['.'] && name != seq!['.', '.']);
    assert(!name.contains('/')) by {
        assert forall|j: int| 0 <= j < name.len() implies name[j] != '/' by {
            if j < stem.len() {
                assert(name[j] == stem[j]);
                assert(stem.contains(stem[j]));
            } else if j > stem.len() {
                assert(name[j] == kind[j - stem.len() - 1]);
                assert(kind.contains(kind[j - stem.len() - 1]));
            }
        }
    }
    assert(made[0] == stem[0]);
    assert(stem.contains(stem[0]));
    law_paths_split_and_join(dir, name, made);
    law_names_split_at_the_last_dot(stem, kind);
    let k = dir.len() + 1 + stem.len();
    assert(input[k as int] == '.' && output[k as int] == '_');
}

/// A flag and its value follow each other at the end of the command, and their
/// explanation shows them both.
pub proof fn law_explanations_show_flag_and_value(
    c: Command,
    flag: Seq<char>,
    value: Seq<char>,
    why: Seq<char>,
)
    ensures
        ({
            let after = c.flag_value(flag, value, why);
            &&& after.args == c.args + seq![flag, value]
            &&& after.explanation.drop_last() == c.explanation
            &&& after.explanation.last() == (flag + seq![' '] + value, why)
            &&& after.pre == c.pre && after.program == c.program
        }),
{
    let after = c.flag_value(flag, value, why);
    assert(after.args =~= c.args + seq![flag, value]);
    assert(after.explanation.drop_last() =~= c.explanation);
}

/// FFmpeg is told beforehand whether to overwrite, so that it never asks.
pub proof fn law_overwriting_is_settled_beforehand(program: Seq<char>)
    ensures
        Command::new(program).globals(true).args.contains("-y"@),
        !Command::new(program).globals(true).args.contains("-n"@),
        Command::new(program).globals(false).args.contains("-n"@),
        !Command::new(program).globals(false).args.contains("-y"@),
{
    reveal_strlit("-hide_banner");
    reveal_strlit("-y");
    reveal_strlit("-n");
    reveal_strlit("-progress");
    reveal_strlit("pipe:1");
    reveal_strlit("-nostats");
    let yes = Command::new(program).globals(true).args;
    let no = Command::new(program).globals(false).args;
    assert("-y"@.len() == 2 && "-n"@.len() == 2 && "-y"@[1] == 'y' && "-n"@[1] == 'n');
    assert("-hide_banner"@.len() == 12 && "-progress"@.len() == 9 && "pipe:1"@.len() == 6
        && "-nostats"@.len() == 8);
    assert(yes =~= seq!["-hide_banner"@, "-y"@, "-progress"@, "pipe:1"@, "-nostats"@]);
    assert(no =~= seq!["-hide_banner"@, "-n"@, "-progress"@, "pipe:1"@, "-nostats"@]);
    assert(yes[1] == "-y"@ && no[1] == "-n"@);
}

} // verus!
