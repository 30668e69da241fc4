//! Command-line routing: which command the arguments ask for.
//!
//! Arguments are raw bytes, as the operating system hands them over; only
//! `+N` line numbers and flags are read as text.

use vstd::prelude::*;
use vstd::string::*;
use vstd::utf8::*;

use crate::model::unicode::utf8_str;
use crate::text::str_equals;

verus! {

broadcast use {vstd::seq::group_seq_axioms, vstd::seq_lib::group_seq_properties};

/// The text of possibly invalid UTF-8, with U+FFFD for invalid sequences,
/// as `String::from_utf8_lossy` gives it.
pub uninterp spec fn lossy_text(bytes: Seq<u8>) -> Seq<char>;

/// `String::from_utf8_lossy`, as an owned string. Valid UTF-8 comes back as
/// it is.
#[verifier::external_body]
pub(crate) fn utf8_lossy(bytes: &[u8]) -> (res: String)
    ensures
        res@ == lossy_text(bytes@),
        valid_utf8(bytes@) ==> res@ == decode_utf8(bytes@),
{
    String::from_utf8_lossy(bytes).into_owned()
}

/// How `Cmd` key bindings are brought in by an import.
#[derive(Debug, Clone, Copy, PartialEq, Eq, Structural)]
pub enum CmdStrategy {
    Keep,
    Ctrl,
    Both,
}

/// What `keymap import vscode` was asked to do.
#[derive(Debug, Clone, PartialEq, Eq)]
pub struct ImportOptions {
    pub path: Vec<u8>,
    pub dry_run: bool,
    pub print_report: bool,
    pub cmd: CmdStrategy,
}

/// The command the arguments select.
#[derive(Debug, Clone, PartialEq, Eq)]
pub enum Command {
    InvalidUsage(String),
    Help,
    Version,
    InspectKey,
    KeymapVerify,
    KeymapImportVscode(ImportOptions),
    OpenFiles { paths: Vec<Vec<u8>>, line: Option<usize> },
}

/// The abstract content of [`ImportOptions`].
pub struct ImportView {
    pub path: Seq<u8>,
    pub dry_run: bool,
    pub print_report: bool,
    pub cmd: CmdStrategy,
}

/// The abstract content of a [`Command`].
pub enum CommandView {
    InvalidUsage(Seq<char>),
    Help,
    Version,
    InspectKey,
    KeymapVerify,
    KeymapImportVscode(ImportView),
    OpenFiles { paths: Seq<Seq<u8>>, line: Option<usize> },
}

/// The byte contents of byte vectors.
pub open spec fn args_view(args: Seq<Vec<u8>>) -> Seq<Seq<u8>> {
    args.map_values(|a: Vec<u8>| a@)
}

impl View for Command {
    type V = CommandView;

    open spec fn view(&self) -> CommandView {
        match self {
            Command::InvalidUsage(m) => CommandView::InvalidUsage(m@),
            Command::Help => CommandView::Help,
            Command::Version => CommandView::Version,
            Command::InspectKey => CommandView::InspectKey,
            Command::KeymapVerify => CommandView::KeymapVerify,
            Command::KeymapImportVscode(o) => CommandView::KeymapImportVscode(
                ImportView { path: o.path@, dry_run: o.dry_run, print_report: o.print_report, cmd: o.cmd },
            ),
            Command::OpenFiles { paths, line } => CommandView::OpenFiles { paths: args_view(paths@), line: *line },
        }
    }
}

/// Whether `arg` is the text `lit`.
pub open spec fn is_arg(arg: Seq<u8>, lit: Seq<char>) -> bool {
    arg == encode_utf8(lit)
}

/// The value of a run of ASCII digits.
pub open spec fn digits_value(d: Seq<char>) -> nat
    decreases d.len(),
{
    if d.len() == 0 {
        0
    } else {
        digits_value(d.drop_last()) * 10 + (d.last() as nat - '0' as nat) as nat
    }
}

/// Whether every character is an ASCII digit.
pub open spec fn all_digits(d: Seq<char>) -> bool {
    forall|i: int| 0 <= i < d.len() ==> '0' <= #[trigger] d[i] <= '9'
}

/// `str::parse::<usize>`: an optional `+`, then one or more ASCII digits
/// whose value fits in `usize`.
pub open spec fn parse_usize_spec(s: Seq<char>) -> Option<usize> {
    digits_usize(
        if s.len() > 0 && s[0] == '+' {
            s.drop_first()
        } else {
            s
        },
    )
}

/// The value of `d` when it is one or more ASCII digits whose value fits in
/// `usize`.
pub open spec fn digits_usize(d: Seq<char>) -> Option<usize> {
    if d.len() == 0 || !all_digits(d) || digits_value(d) > usize::MAX {
        None
    } else {
        Some(digits_value(d) as usize)
    }
}

fn parse_digits(d: &str) -> (res: Option<usize>)
    ensures
        res == digits_usize(d@),
{
    let n = d.unicode_len();
    if n == 0 {
        return None;
    }
    let mut value: u128 = 0;
    let mut i: usize = 0;
    assert(d@.take(0) =~= Seq::<char>::empty());
    while i < n
        invariant
            n == d@.len(),
            i <= n,
            all_digits(d@.take(i as int)),
            value == digits_value(d@.take(i as int)),
            value <= usize::MAX,
        decreases n - i,
    {
        let c = d.get_char(i);
        assert(d@.take(i + 1).drop_last() =~= d@.take(i as int));
        assert(d@.take(i + 1).last() == c);
        if !('0' <= c && c <= '9') {
            assert(!all_digits(d@)) by {
                assert(d@[i as int] == c);
            }
            return None;
        }
        let digit = (c as u32 - '0' as u32) as u128;
        value = value * 10 + digit;
        if value > usize::MAX as u128 {
            proof {
                if all_digits(d@) {
                    lemma_digits_value_grows(d@.take(i + 1), d@);
                }
            }
            return None;
        }
        i = i + 1;
    }
    assert(d@.take(n as int) =~= d@);
    Some(value as usize)
}

/// Parses a decimal `usize` as `str::parse` does.
pub fn parse_usize(s: &str) -> (res: Option<usize>)
    ensures
        res == parse_usize_spec(s@),
{
    let n = s.unicode_len();
    if n > 0 && s.get_char(0) == '+' {
        let rest = s.substring_char(1, n);
        assert(rest@ =~= s@.drop_first());
        parse_digits(rest)
    } else {
        parse_digits(s)
    }
}

/// A longer run of digits has at least the value of its prefix.
proof fn lemma_digits_value_grows(p: Seq<char>, d: Seq<char>)
    requires
        p.len() <= d.len(),
        p == d.take(p.len() as int),
        all_digits(d),
    ensures
        digits_value(p) <= digits_value(d),
    decreases d.len() - p.len(),
{
    if p.len() < d.len() {
        let q = d.take(p.len() as int + 1);
        assert(q.drop_last() =~= p);
        assert(all_digits(q));
        lemma_digits_value_grows(q, d);
    }
}

fn is_literal(arg: &[u8], lit: &str) -> (res: bool)
    ensures
        res == is_arg(arg@, lit@),
{
    let b = lit.as_bytes();
    if arg.len() != b.len() {
        return false;
    }
    let mut i: usize = 0;
    while i < arg.len()
        invariant
            arg@.len() == b@.len(),
            b@ == encode_utf8(lit@),
            i <= arg@.len(),
            forall|k: int| 0 <= k < i ==> arg@[k] == b@[k],
        decreases arg@.len() - i,
    {
        if arg[i] != b[i] {
            assert(arg@ != b@);
            return false;
        }
        i = i + 1;
    }
    assert(arg@ =~= b@);
    true
}

/// The state of reading the default form `[+N] [path...] [-- path...]`.
pub struct OpenState {
    pub paths: Seq<Seq<u8>>,
    pub line: Option<usize>,
    pub rest_are_paths: bool,
}

/// The message for a second `+N`.
pub open spec fn multiple_line_message() -> Seq<char> {
    "multiple +N arguments; pass a single line number"@
}

/// The message for a malformed `+N`.
pub open spec fn invalid_line_message(raw: Seq<char>) -> Seq<char> {
    "invalid line number in +"@ + raw
        + " (expected +N with N >= 1; use `--` before file names starting with '+')"@
}

/// One argument of the default form read.
pub open spec fn open_step(st: OpenState, arg: Seq<u8>) -> Result<OpenState, Seq<char>> {
    if !st.rest_are_paths && is_arg(arg, "--"@) {
        Ok(OpenState { rest_are_paths: true, ..st })
    } else if !st.rest_are_paths && valid_utf8(arg) && decode_utf8(arg).len() > 0 && decode_utf8(arg)[0] == '+' {
        match plus_line_spec(decode_utf8(arg).drop_first(), st.line) {
            Ok(n) => Ok(OpenState { line: Some(n), ..st }),
            Err(m) => Err(m),
        }
    } else {
        Ok(OpenState { paths: st.paths.push(arg), ..st })
    }
}

/// The line a `+N` argument (its text after `+` is `raw`) sets, or the
/// message that rejects it.
pub open spec fn plus_line_spec(raw: Seq<char>, line: Option<usize>) -> Result<usize, Seq<char>> {
    if line is Some {
        Err(multiple_line_message())
    } else {
        match parse_usize_spec(raw) {
            Some(n) => if n > 0 {
                Ok(n)
            } else {
                Err(invalid_line_message(raw))
            },
            None => Err(invalid_line_message(raw)),
        }
    }
}

fn plus_line(raw: &str, line: Option<usize>) -> (res: Result<usize, String>)
    ensures
        match plus_line_spec(raw@, line) {
            Ok(n) => res == Ok::<usize, String>(n),
            Err(m) => res is Err && res->Err_0@ == m,
        },
{
    if line.is_some() {
        let m = "multiple +N arguments; pass a single line number";
        proof {
            reveal_strlit("multiple +N arguments; pass a single line number");
        }
        return Err(m.to_owned());
    }
    match parse_usize(raw) {
        Some(parsed) => {
            if parsed > 0 {
                return Ok(parsed);
            }
        },
        None => {},
    }
    let head = "invalid line number in +";
    let tail = " (expected +N with N >= 1; use `--` before file names starting with '+')";
    proof {
        reveal_strlit("invalid line number in +");
        reveal_strlit(" (expected +N with N >= 1; use `--` before file names starting with '+')");
    }
    let mut message = head.to_owned();
    message.append(raw);
    message.append(tail);
    Err(message)
}

/// The arguments of the default form read in order; the first error stops.
pub open spec fn open_fold(args: Seq<Seq<u8>>) -> Result<OpenState, Seq<char>>
    decreases args.len(),
{
    if args.len() == 0 {
        Ok(OpenState { paths: Seq::empty(), line: None, rest_are_paths: false })
    } else {
        match open_fold(args.drop_last()) {
            Ok(st) => open_step(st, args.last()),
            Err(m) => Err(m),
        }
    }
}

/// Once an argument fails, reading more arguments keeps the failure.
proof fn lemma_open_fold_stops(args: Seq<Seq<u8>>, k: int)
    requires
        0 < k <= args.len(),
        open_fold(args.take(k)) is Err,
    ensures
        open_fold(args) == open_fold(args.take(k)),
    decreases args.len() - k,
{
    if k < args.len() {
        assert(args.take(k + 1).drop_last() =~= args.take(k));
        lemma_open_fold_stops(args, k + 1);
    } else {
        assert(args.take(k) =~= args);
    }
}

/// The command of the default form.
pub open spec fn open_command(args: Seq<Seq<u8>>) -> CommandView {
    match open_fold(args) {
        Ok(st) => CommandView::OpenFiles { paths: st.paths, line: st.line },
        Err(m) => CommandView::InvalidUsage(m),
    }
}

/// Parses the default "open files" form.
pub fn parse_open_args(args: Vec<Vec<u8>>) -> (res: Command)
    ensures
        res@ == open_command(args_view(args@)),
{
    let ghost av = args_view(args@);
    let mut paths: Vec<Vec<u8>> = Vec::new();
    let mut line: Option<usize> = None;
    let mut rest_are_paths = false;
    let mut i: usize = 0;
    assert(av.take(0) =~= Seq::<Seq<u8>>::empty());
    assert(args_view(paths@) =~= Seq::<Seq<u8>>::empty());
    while i < args.len()
        invariant
            av == args_view(args@),
            i <= av.len(),
            open_fold(av.take(i as int)) == Ok::<OpenState, Seq<char>>(
                OpenState { paths: args_view(paths@), line, rest_are_paths },
            ),
        decreases av.len() - i,
    {
        let arg = &args[i];
        assert(av.take(i + 1).drop_last() =~= av.take(i as int));
        assert(av.take(i + 1).last() == arg@);
        let ghost st = OpenState { paths: args_view(paths@), line, rest_are_paths };
        if !rest_are_paths {
            if is_literal(arg.as_slice(), "--") {
                rest_are_paths = true;
                i = i + 1;
                continue;
            }
            match utf8_str(arg.as_slice()) {
                Some(text) => {
                    proof {
                        encode_utf8_decode_utf8(text@);
                    }
                    let n = text.unicode_len();
                    if n > 0 && text.get_char(0) == '+' {
                        let raw = text.substring_char(1, n);
                        assert(raw@ =~= decode_utf8(arg@).drop_first());
                        match plus_line(raw, line) {
                            Ok(parsed) => {
                                line = Some(parsed);
                                i = i + 1;
                                continue;
                            },
                            Err(message) => {
                                proof {
                                    lemma_open_fold_stops(av, (i + 1) as int);
                                }
                                return Command::InvalidUsage(message);
                            },
                        }
                    }
                },
                None => {},
            }
        }
        let ghost before = paths@;
        paths.push(arg.clone());
        assert(args_view(paths@) =~= args_view(before).push(arg@));
        i = i + 1;
    }
    assert(av.take(av.len() as int) =~= av);
    Command::OpenFiles { paths, line }
}

/// The usage message for a malformed `keymap` command.
pub open spec fn keymap_usage() -> Seq<char> {
    "usage: coda keymap import vscode <path> [--dry-run] [--print-report] [--cmd=keep|ctrl|both]\n       coda keymap verify"@
}

/// One flag of `keymap import vscode` read; `Err` stops with a message.
pub open spec fn import_step(o: ImportView, flag: Seq<char>) -> Result<ImportView, Seq<char>> {
    if flag == "--dry-run"@ {
        Ok(ImportView { dry_run: true, ..o })
    } else if flag == "--replace"@ {
        Ok(o)
    } else if flag == "--print-report"@ {
        Ok(ImportView { print_report: true, ..o })
    } else if flag == "--cmd"@ {
        Err("missing value for --cmd (expected --cmd=keep|ctrl|both)"@)
    } else if flag.len() >= 6 && flag.take(6) == "--cmd="@ {
        let raw = flag.skip(6);
        if raw == "keep"@ {
            Ok(ImportView { cmd: CmdStrategy::Keep, ..o })
        } else if raw == "ctrl"@ {
            Ok(ImportView { cmd: CmdStrategy::Ctrl, ..o })
        } else if raw == "both"@ {
            Ok(ImportView { cmd: CmdStrategy::Both, ..o })
        } else {
            Err("invalid --cmd value: "@ + raw + " (expected keep|ctrl|both)"@)
        }
    } else {
        Err("unknown keymap import flag: "@ + flag)
    }
}

/// The abstract content of import options.
pub open spec fn options_view(o: ImportOptions) -> ImportView {
    ImportView { path: o.path@, dry_run: o.dry_run, print_report: o.print_report, cmd: o.cmd }
}

/// Reads one flag into `options`, or returns the message that rejects it.
fn import_flag(options: &mut ImportOptions, flag: &str) -> (res: Option<String>)
    ensures
        match import_step(options_view(*old(options)), flag@) {
            Ok(o) => res is None && options_view(*final(options)) == o,
            Err(m) => res is Some && res.unwrap()@ == m,
        },
{
    proof {
        reveal_strlit("--dry-run");
        reveal_strlit("--replace");
        reveal_strlit("--print-report");
        reveal_strlit("--cmd");
        reveal_strlit("--cmd=");
        reveal_strlit("keep");
        reveal_strlit("ctrl");
        reveal_strlit("both");
    }
    if str_equals(flag, "--dry-run") {
        options.dry_run = true;
        None
    } else if str_equals(flag, "--replace") {
        None
    } else if str_equals(flag, "--print-report") {
        options.print_report = true;
        None
    } else if str_equals(flag, "--cmd") {
        let m = "missing value for --cmd (expected --cmd=keep|ctrl|both)";
        proof {
            reveal_strlit("missing value for --cmd (expected --cmd=keep|ctrl|both)");
        }
        Some(m.to_owned())
    } else if flag.unicode_len() >= 6 && str_equals(flag.substring_char(0, 6), "--cmd=") {
        let raw = flag.substring_char(6, flag.unicode_len());
        assert(raw@ =~= flag@.skip(6));
        if str_equals(raw, "keep") {
            options.cmd = CmdStrategy::Keep;
            None
        } else if str_equals(raw, "ctrl") {
            options.cmd = CmdStrategy::Ctrl;
            None
        } else if str_equals(raw, "both") {
            options.cmd = CmdStrategy::Both;
            None
        } else {
            let head = "invalid --cmd value: ";
            let tail = " (expected keep|ctrl|both)";
            proof {
                reveal_strlit("invalid --cmd value: ");
                reveal_strlit(" (expected keep|ctrl|both)");
            }
            let mut message = head.to_owned();
            message.append(raw);
            message.append(tail);
            Some(message)
        }
    } else {
        let head = "unknown keymap import flag: ";
        proof {
            reveal_strlit("unknown keymap import flag: ");
        }
        let mut message = head.to_owned();
        message.append(flag);
        Some(message)
    }
}

/// The flags read in order; the first error stops.
pub open spec fn import_fold(o: ImportView, flags: Seq<Seq<u8>>) -> Result<ImportView, Seq<char>>
    decreases flags.len(),
{
    if flags.len() == 0 {
        Ok(o)
    } else {
        match import_fold(o, flags.drop_last()) {
            Ok(o2) => import_step(o2, lossy_text(flags.last())),
            Err(m) => Err(m),
        }
    }
}

/// The `keymap ...` commands, or nothing when the first argument is not `keymap`.
pub open spec fn keymap_command(args: Seq<Seq<u8>>) -> Option<CommandView> {
    if args.len() == 0 || !is_arg(args[0], "keymap"@) {
        None
    } else if args.len() >= 2 && is_arg(args[1], "verify"@) {
        Some(if args.len() == 2 {
            CommandView::KeymapVerify
        } else {
            CommandView::InvalidUsage("keymap verify takes no arguments"@)
        })
    } else if args.len() < 3 || !is_arg(args[1], "import"@) || !is_arg(args[2], "vscode"@) {
        Some(CommandView::InvalidUsage(keymap_usage()))
    } else if args.len() < 4 {
        Some(CommandView::InvalidUsage("missing path: coda keymap import vscode <path>"@))
    } else {
        let start = ImportView { path: args[3], dry_run: false, print_report: false, cmd: CmdStrategy::Keep };
        match import_fold(start, args.skip(4)) {
            Ok(o) => Some(CommandView::KeymapImportVscode(o)),
            Err(m) => Some(CommandView::InvalidUsage(m)),
        }
    }
}

/// The command the arguments select.
pub open spec fn command_spec(args: Seq<Seq<u8>>) -> CommandView {
    if args.len() == 1 && (is_arg(args[0], "--help"@) || is_arg(args[0], "-h"@)) {
        CommandView::Help
    } else if args.len() == 1 && (is_arg(args[0], "--version"@) || is_arg(args[0], "-V"@)) {
        CommandView::Version
    } else if args.len() == 1 && is_arg(args[0], "inspect-key"@) {
        CommandView::InspectKey
    } else {
        match keymap_command(args) {
            Some(c) => c,
            None => open_command(args),
        }
    }
}

fn invalid(message: &str) -> (res: Command)
    ensures
        res@ == CommandView::InvalidUsage(message@),
{
    Command::InvalidUsage(message.to_owned())
}

/// Parses the `keymap ...` subcommands; nothing when the first argument is
/// not `keymap`.
pub fn parse_keymap_import_vscode(args: &[Vec<u8>]) -> (res: Option<Command>)
    ensures
        match keymap_command(args_view(args@)) {
            Some(c) => res is Some && res.unwrap()@ == c,
            None => res is None,
        },
{
    let ghost av = args_view(args@);
    let n = args.len();
    if n == 0 || !is_literal(args[0].as_slice(), "keymap") {
        return None;
    }
    proof {
        reveal_strlit("keymap");
        reveal_strlit("verify");
        reveal_strlit("import");
        reveal_strlit("vscode");
    }
    if n >= 2 && is_literal(args[1].as_slice(), "verify") {
        if n == 2 {
            return Some(Command::KeymapVerify);
        }
        let m = "keymap verify takes no arguments";
        proof {
            reveal_strlit("keymap verify takes no arguments");
        }
        return Some(invalid(m));
    }
    if n < 3 || !is_literal(args[1].as_slice(), "import") || !is_literal(args[2].as_slice(), "vscode") {
        let m = "usage: coda keymap import vscode <path> [--dry-run] [--print-report] [--cmd=keep|ctrl|both]\n       coda keymap verify";
        proof {
            reveal_strlit("usage: coda keymap import vscode <path> [--dry-run] [--print-report] [--cmd=keep|ctrl|both]\n       coda keymap verify");
        }
        return Some(invalid(m));
    }
    if n < 4 {
        let m = "missing path: coda keymap import vscode <path>";
        proof {
            reveal_strlit("missing path: coda keymap import vscode <path>");
        }
        return Some(invalid(m));
    }
    let mut options = ImportOptions {
        path: args[3].clone(),
        dry_run: false,
        print_report: false,
        cmd: CmdStrategy::Keep,
    };
    let ghost start = ImportView { path: args@[3]@, dry_run: false, print_report: false, cmd: CmdStrategy::Keep };
    let ghost flags = av.skip(4);
    assert(keymap_command(av) == (match import_fold(start, flags) {
        Ok(o) => Some(CommandView::KeymapImportVscode(o)),
        Err(m) => Some(CommandView::InvalidUsage(m)),
    }));
    let mut i: usize = 4;
    assert(flags.take(0) =~= Seq::<Seq<u8>>::empty());
    while i < n
        invariant
            n == args@.len(),
            av == args_view(args@),
            flags == av.skip(4),
            4 <= i <= n,
            keymap_command(av) == (match import_fold(start, flags) {
                Ok(o) => Some(CommandView::KeymapImportVscode(o)),
                Err(m) => Some(CommandView::InvalidUsage(m)),
            }),
            import_fold(start, flags.take(i - 4)) == Ok::<ImportView, Seq<char>>(options_view(options)),
        decreases n - i,
    {
        let text = utf8_lossy(args[i].as_slice());
        assert(flags.take(i - 3).drop_last() =~= flags.take(i - 4));
        assert(flags.take(i - 3).last() == args@[i as int]@);
        let ghost o_before = options_view(options);
        match import_flag(&mut options, text.as_str()) {
            None => {},
            Some(message) => {
                proof {
                    assert(import_step(o_before, text@) == Err::<ImportView, Seq<char>>(message@));
                    assert(import_fold(start, flags.take(i - 3)) == Err::<ImportView, Seq<char>>(message@));
                    lemma_import_fold_stops(start, flags, (i - 3) as int);
                }
                return Some(Command::InvalidUsage(message));
            },
        }
        i = i + 1;
    }
    assert(flags.take(n - 4) =~= flags);
    Some(Command::KeymapImportVscode(options))
}

/// Once a flag fails, reading more flags keeps the failure.
proof fn lemma_import_fold_stops(o: ImportView, flags: Seq<Seq<u8>>, k: int)
    requires
        0 < k <= flags.len(),
        import_fold(o, flags.take(k)) is Err,
    ensures
        import_fold(o, flags) == import_fold(o, flags.take(k)),
    decreases flags.len() - k,
{
    if k < flags.len() {
        assert(flags.take(k + 1).drop_last() =~= flags.take(k));
        lemma_import_fold_stops(o, flags, k + 1);
    } else {
        assert(flags.take(k) =~= flags);
    }
}

impl Command {
    /// The command the arguments select: help, version, the key inspector,
    /// the `keymap` subcommands, or else opening files.
    pub fn parse(args: Vec<Vec<u8>>) -> (res: Command)
        ensures
            res@ == command_spec(args_view(args@)),
    {
        let n = args.len();
        proof {
            reveal_strlit("--help");
            reveal_strlit("-h");
            reveal_strlit("--version");
            reveal_strlit("-V");
            reveal_strlit("inspect-key");
        }
        if n == 1 && (is_literal(args[0].as_slice(), "--help") || is_literal(args[0].as_slice(), "-h")) {
            return Command::Help;
        }
        if n == 1 && (is_literal(args[0].as_slice(), "--version") || is_literal(args[0].as_slice(), "-V")) {
            return Command::Version;
        }
        if n == 1 && is_literal(args[0].as_slice(), "inspect-key") {
            return Command::InspectKey;
        }
        match parse_keymap_import_vscode(args.as_slice()) {
            Some(command) => command,
            None => parse_open_args(args),
        }
    }
}

} // verus!
