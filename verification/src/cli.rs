//! The decisions of the command-line interpreter: which arguments it takes,
//! which file names it runs, and how the REPL gathers the lines of a block.

use vstd::prelude::*;
use vstd::string::*;
use crate::text::{chars_of, is_whitespace, text_eq, text_of, text_result, unicode_whitespace};

verus! {

// ---------------------------------------------------------------------------
// Lines of the REPL
// ---------------------------------------------------------------------------

/// The length of `cs` without its trailing whitespace.
pub open spec fn trim_end_len(cs: Seq<char>) -> nat
    decreases cs.len(),
{
    if cs.len() > 0 && unicode_whitespace(cs.last()) { trim_end_len(cs.drop_last()) } else { cs.len() }
}

/// The number of leading whitespace characters of `cs`.
pub open spec fn trim_start_len(cs: Seq<char>) -> nat
    decreases cs.len(),
{
    if cs.len() > 0 && unicode_whitespace(cs[0]) { 1 + trim_start_len(cs.subrange(1, cs.len() as int)) } else { 0 }
}

/// `cs` without leading and trailing whitespace, as `str::trim` gives it.
pub open spec fn trimmed(cs: Seq<char>) -> Seq<char> {
    let t = cs.take(trim_end_len(cs) as int);
    t.subrange(trim_start_len(t) as int, t.len() as int)
}

/// A line that opens a block: its last character other than whitespace is
/// a colon.
pub open spec fn opens_block(line: Seq<char>) -> bool {
    let t = line.take(trim_end_len(line) as int);
    t.len() > 0 && t.last() == ':'
}

/// A line that ends the block being read: an empty line, or a line that is
/// not indented and continues nothing (`else:` and `elif ...` continue).
pub open spec fn ends_block(line: Seq<char>) -> bool {
    let t = trimmed(line);
    if t.len() == 0 {
        true
    } else if line.len() > 0 && (line[0] == ' ' || line[0] == '\t') {
        false
    } else if t == "else:"@ || (t.len() >= 5 && t.take(5) == "elif "@) {
        false
    } else {
        true
    }
}

/// The length of `cs` without its trailing whitespace.
fn trim_end_length(cs: &Vec<char>) -> (n: usize)
    ensures
        n == trim_end_len(cs@),
        n <= cs@.len(),
{
    let mut n = cs.len();
    assert(cs@.take(cs@.len() as int) =~= cs@);
    while n > 0 && is_whitespace(cs[n - 1])
        invariant
            n <= cs@.len(),
            trim_end_len(cs@) == trim_end_len(cs@.take(n as int)),
        decreases n,
    {
        assert(cs@.take(n as int).drop_last() =~= cs@.take(n - 1));
        n = n - 1;
    }
    n
}

/// The number of leading whitespace characters of `cs[..end]`.
fn trim_start_length(cs: &Vec<char>, end: usize) -> (n: usize)
    requires
        end <= cs@.len(),
    ensures
        n == trim_start_len(cs@.take(end as int)),
        n <= end,
{
    let ghost t = cs@.take(end as int);
    let mut n: usize = 0;
    assert(t.subrange(0, t.len() as int) =~= t);
    while n < end && is_whitespace(cs[n])
        invariant
            n <= end <= cs@.len(),
            t == cs@.take(end as int),
            trim_start_len(t) == n + trim_start_len(t.subrange(n as int, t.len() as int)),
        decreases end - n,
    {
        let ghost rest = t.subrange(n as int, t.len() as int);
        assert(rest.subrange(1, rest.len() as int) =~= t.subrange(n + 1, t.len() as int));
        n = n + 1;
    }
    proof {
        let rest = t.subrange(n as int, t.len() as int);
        if n < end {
            assert(rest[0] == cs@[n as int]);
        }
    }
    n
}

/// Returns true if the line ends with a colon, indicating a block start.
///
/// This is the heuristic the REPL uses to enter multi-line input for
/// constructs like `if`, `elif` and `else`.
pub fn needs_block(line: &str) -> (r: bool)
    ensures
        r == opens_block(line@),
{
    let cs = chars_of(line);
    let n = trim_end_length(&cs);
    n > 0 && cs[n - 1] == ':'
}

/// Whether the trimmed text `cs[start..end]` is `else:` or starts with
/// `elif `.
fn continues_block(cs: &Vec<char>, start: usize, end: usize) -> (r: bool)
    requires
        start <= end <= cs@.len(),
    ensures
        ({
            let t = cs@.subrange(start as int, end as int);
            r == (t == "else:"@ || (t.len() >= 5 && t.take(5) == "elif "@))
        }),
{
    let ghost t = cs@.subrange(start as int, end as int);
    proof {
        reveal_strlit("else:");
        reveal_strlit("elif ");
    }
    let len = end - start;
    let is_else = len == 5 && cs[start] == 'e' && cs[start + 1] == 'l' && cs[start + 2] == 's'
        && cs[start + 3] == 'e' && cs[start + 4] == ':';
    let is_elif = len >= 5 && cs[start] == 'e' && cs[start + 1] == 'l' && cs[start + 2] == 'i'
        && cs[start + 3] == 'f' && cs[start + 4] == ' ';
    proof {
        if is_else {
            assert(t =~= "else:"@);
        }
        if t == "else:"@ {
            assert(t[0] == 'e' && t[1] == 'l' && t[2] == 's' && t[3] == 'e' && t[4] == ':');
        }
        if is_elif {
            assert(t.take(5) =~= "elif "@);
        }
        if t.len() >= 5 && t.take(5) == "elif "@ {
            assert(t.take(5)[0] == 'e' && t.take(5)[1] == 'l' && t.take(5)[2] == 'i' && t.take(5)[3] == 'f' && t.take(5)[4] == ' ');
        }
    }
    is_else || is_elif
}

/// Returns true if the line signals the end of a block: it is empty (after
/// trimming), or it is not indented and is not a continuation such as
/// `else:` or `elif ...`.
pub fn is_block_end(line: &str) -> (r: bool)
    ensures
        r == ends_block(line@),
{
    let cs = chars_of(line);
    let end = trim_end_length(&cs);
    let start = trim_start_length(&cs, end);
    proof {
        let t = cs@.take(end as int);
        assert(trimmed(line@) =~= cs@.subrange(start as int, end as int));
    }
    if start == end {
        return true;
    }
    if cs[0] == ' ' || cs[0] == '\t' {
        return false;
    }
    !continues_block(&cs, start, end)
}

/// What the REPL does after a line: read another line of the block, run
/// the source gathered, or stop at the end of input.
pub enum ReplAction {
    /// Read another line (with the continuation prompt).
    ReadMore,
    /// Run this source text.
    Run(String),
    /// The input ended.
    Quit,
}

/// The lines of the REPL input gathered so far, and whether they open a
/// block that is still being read.
pub struct LineBuffer {
    lines: Vec<String>,
    in_block: bool,
}

/// The lines joined, as `lines.join("")` gives them.
pub open spec fn joined(lines: Seq<Seq<char>>) -> Seq<char>
    decreases lines.len(),
{
    if lines.len() == 0 { Seq::empty() } else { joined(lines.drop_last()) + lines.last() }
}

/// What a line does to the REPL's buffer: the action, and the lines and
/// block flag after it. An empty line is the end of input; a line outside a
/// block runs at once unless it opens one; inside a block, lines gather
/// until one ends it.
pub open spec fn feed_spec(lines: Seq<Seq<char>>, in_block: bool, line: Seq<char>) -> (Option<Option<Seq<char>>>, Seq<Seq<char>>, bool) {
    if line.len() == 0 {
        (None, lines, in_block)
    } else {
        let lines2 = lines.push(line);
        if !in_block {
            if opens_block(line) {
                (Some(None), lines2, true)
            } else {
                (Some(Some(joined(lines2))), Seq::empty(), false)
            }
        } else if ends_block(line) {
            (Some(Some(joined(lines2))), Seq::empty(), false)
        } else {
            (Some(None), lines2, true)
        }
    }
}

impl LineBuffer {
    /// The lines gathered, as text.
    pub closed spec fn lines(&self) -> Seq<Seq<char>> {
        self.lines@.map_values(|s: String| s@)
    }

    /// Whether a block is being read.
    pub closed spec fn reading_block(&self) -> bool {
        self.in_block
    }

    /// An empty buffer, outside any block.
    pub fn new() -> (b: Self)
        ensures
            b.lines() == Seq::<Seq<char>>::empty(),
            !b.reading_block(),
    {
        let b = LineBuffer { lines: Vec::new(), in_block: false };
        assert(b.lines() =~= Seq::<Seq<char>>::empty());
        b
    }

    /// The prompt for the next line: `... ` inside a block, `>>> ` otherwise.
    pub fn prompt(&self) -> (p: &'static str)
        ensures
            p@ == (if self.reading_block() { "... "@ } else { ">>> "@ }),
    {
        if self.in_block { "... " } else { ">>> " }
    }

    /// The gathered lines joined into one source text.
    fn join(&self) -> (s: String)
        ensures
            s@ == joined(self.lines()),
    {
        let mut s = String::new();
        let mut i: usize = 0;
        assert(self.lines().take(0) =~= Seq::<Seq<char>>::empty());
        while i < self.lines.len()
            invariant
                i <= self.lines@.len(),
                s@ == joined(self.lines().take(i as int)),
            decreases self.lines@.len() - i,
        {
            assert(self.lines().take(i + 1).drop_last() =~= self.lines().take(i as int));
            s.append(self.lines[i].as_str());
            i = i + 1;
        }
        assert(self.lines().take(i as int) =~= self.lines());
        s
    }

    /// Takes one line of input (as read, with its newline; empty at the end
    /// of input) and says what the REPL does next.
    pub fn feed(&mut self, line: String) -> (a: ReplAction)
        ensures
            ({
                let (act, lines2, in_block2) = feed_spec(old(self).lines(), old(self).reading_block(), line@);
                &&& final(self).lines() == lines2
                &&& final(self).reading_block() == in_block2
                &&& match act {
                    None => a is Quit,
                    Some(None) => a is ReadMore,
                    Some(Some(src)) => a matches ReplAction::Run(s) && s@ == src,
                }
            }),
    {
        if line.as_str().is_empty() {
            return ReplAction::Quit;
        }
        let ghost before = self.lines();
        let opens = needs_block(line.as_str());
        let ends = is_block_end(line.as_str());
        self.lines.push(line);
        assert(self.lines() =~= before.push(line@));
        if !self.in_block {
            if opens {
                self.in_block = true;
                return ReplAction::ReadMore;
            }
        } else if !ends {
            return ReplAction::ReadMore;
        }
        let source = self.join();
        self.lines = Vec::new();
        self.in_block = false;
        assert(self.lines() =~= Seq::<Seq<char>>::empty());
        ReplAction::Run(source)
    }
}

// ---------------------------------------------------------------------------
// File names and arguments
// ---------------------------------------------------------------------------

/// A character allowed in a snake_case name.
pub open spec fn snake_char(c: char) -> bool {
    ('a' <= c && c <= 'z') || ('0' <= c && c <= '9') || c == '_'
}

/// A snake_case name: not empty, lowercase letters, digits and underscores
/// only, and not starting with a digit.
pub open spec fn snake_case(name: Seq<char>) -> bool {
    &&& name.len() > 0
    &&& (('a' <= name[0] && name[0] <= 'z') || name[0] == '_')
    &&& forall|i: int| 0 <= i < name.len() ==> snake_char(#[trigger] name[i])
}

/// Validates that a filename follows the snake_case convention: it
/// contains only lowercase letters, digits and underscores, does not start
/// with a digit, and is not empty.
pub fn is_valid_snake_case(name: &str) -> (r: bool)
    ensures
        r == snake_case(name@),
{
    let cs = chars_of(name);
    if cs.len() == 0 {
        return false;
    }
    let first = cs[0];
    if !(('a' <= first && first <= 'z') || first == '_') {
        return false;
    }
    let mut i: usize = 0;
    while i < cs.len()
        invariant
            cs@ == name@,
            i <= cs@.len(),
            forall|j: int| 0 <= j < i ==> snake_char(#[trigger] cs@[j]),
        decreases cs@.len() - i,
    {
        let c = cs[i];
        if !(('a' <= c && c <= 'z') || ('0' <= c && c <= '9') || c == '_') {
            return false;
        }
        i = i + 1;
    }
    true
}

/// The final component of a path, as `std::path::Path::file_name` finds
/// it (`None` for a path that ends in `..` or has no component). It depends
/// on the path's text alone, with the separators of the platform that the
/// program is built for.
pub uninterp spec fn path_file_name(path: Seq<char>) -> Option<Seq<char>>;

/// A path of one plain component: not empty, not `.` or `..`, and without
/// `/`, `\` or `:`. On every platform such a path is its own file name.
pub open spec fn plain_name(path: Seq<char>) -> bool {
    &&& path.len() > 0
    &&& path != "."@
    &&& path != ".."@
    &&& forall|i: int| 0 <= i < path.len() ==> path[i] != '/' && path[i] != '\\' && path[i] != ':'
}

/// The index of the last `.` of a name, or -1.
pub open spec fn last_dot(name: Seq<char>) -> int
    decreases name.len(),
{
    if name.len() == 0 {
        -1
    } else if name.last() == '.' {
        name.len() - 1
    } else {
        last_dot(name.drop_last())
    }
}

/// The extension of a file name, as `Path::extension` documents it: none
/// without a name, without a `.`, or when the only `.` starts the name;
/// otherwise what follows the last `.`.
pub open spec fn name_extension(name: Option<Seq<char>>) -> Option<Seq<char>> {
    match name {
        Some(n) => if last_dot(n) <= 0 { None } else { Some(n.subrange(last_dot(n) + 1, n.len() as int)) },
        None => None,
    }
}

/// The stem of a file name, as `Path::file_stem` documents it: none
/// without a name; the whole name without a `.` or when the only `.`
/// starts it; otherwise what precedes the last `.`.
pub open spec fn name_stem(name: Option<Seq<char>>) -> Option<Seq<char>> {
    match name {
        Some(n) => if last_dot(n) <= 0 { Some(n) } else { Some(n.subrange(0, last_dot(n))) },
        None => None,
    }
}

/// The file name of a path: the path itself when it is a plain name,
/// otherwise what `Path::file_name` finds.
pub open spec fn file_name_in(path: Seq<char>) -> Option<Seq<char>> {
    if plain_name(path) { Some(path) } else { path_file_name(path) }
}

/// `Path::extension` of a path given as text: the documented rule applied
/// to the path's file name. How `Path` splits a path that is not a plain
/// name into components is left to the name `path_file_name`.
#[verifier::external_body]
fn extension_of(path: &str) -> (r: Option<String>)
    ensures
        match r {
            Some(e) => name_extension(if plain_name(path@) { Some(path@) } else { path_file_name(path@) }) == Some(e@),
            None => name_extension(if plain_name(path@) { Some(path@) } else { path_file_name(path@) }) is None,
        },
{
    match std::path::Path::new(path).extension() {
        Some(ext) => Some(ext.to_string_lossy().into_owned()),
        None => None,
    }
}

/// `Path::file_stem` of a path given as text: the documented rule applied
/// to the path's file name, as for `extension_of`.
#[verifier::external_body]
fn file_stem_of(path: &str) -> (r: Option<String>)
    ensures
        match r {
            Some(st) => name_stem(if plain_name(path@) { Some(path@) } else { path_file_name(path@) }) == Some(st@),
            None => name_stem(if plain_name(path@) { Some(path@) } else { path_file_name(path@) }) is None,
        },
{
    match std::path::Path::new(path).file_stem() {
        Some(stem) => Some(stem.to_string_lossy().into_owned()),
        None => None,
    }
}

/// The verdict on a path's extension and file stem: the extension must be
/// `tp` and the stem snake_case, or the message says what is wrong.
pub open spec fn parts_verdict(ext: Option<Seq<char>>, stem: Option<Seq<char>>) -> Result<(), Seq<char>> {
    match ext {
        Some(e) => if e == "tp"@ {
            match stem {
                Some(st) => if snake_case(st) {
                    Ok(())
                } else {
                    Err("Filename '"@ + st
                        + "' must be in snake_case (lowercase letters, digits, underscores, cannot start with digit)"@)
                },
                None => Err("Invalid file path"@),
            }
        } else {
            Err("Invalid file extension '."@ + e + "'. Expected '.tp'"@)
        },
        None => Err("File must have '.tp' extension"@),
    }
}

/// The verdict on a path to run, from the extension and stem of its file
/// name.
pub open spec fn path_verdict(path: Seq<char>) -> Result<(), Seq<char>> {
    parts_verdict(name_extension(file_name_in(path)), name_stem(file_name_in(path)))
}

/// The characters of an optional text.
pub open spec fn opt_text(o: Option<&str>) -> Option<Seq<char>> {
    match o {
        Some(t) => Some(t@),
        None => None,
    }
}

/// Checks a path's extension and file stem: the extension must be `tp`
/// and the stem a snake_case name.
pub fn check_path_parts(extension: Option<&str>, stem: Option<&str>) -> (r: Result<(), String>)
    ensures
        text_result(r) == parts_verdict(opt_text(extension), opt_text(stem)),
{
    match extension {
        Some(ext) => {
            if !text_eq(ext, "tp") {
                let mut e = text_of("Invalid file extension '.");
                e.append(ext);
                e.append("'. Expected '.tp'");
                return Err(e);
            }
        },
        None => {
            return Err(text_of("File must have '.tp' extension"));
        },
    }
    match stem {
        Some(st) => {
            if !is_valid_snake_case(st) {
                let mut e = text_of("Filename '");
                e.append(st);
                e.append("' must be in snake_case (lowercase letters, digits, underscores, cannot start with digit)");
                return Err(e);
            }
        },
        None => {
            return Err(text_of("Invalid file path"));
        },
    }
    Ok(())
}

/// Validates that a file path has the `.tp` extension and a snake_case
/// name; returns the error message otherwise.
pub fn validate_file_path(path: &str) -> (r: Result<(), String>)
    ensures
        text_result(r) == path_verdict(path@),
{
    let ext = extension_of(path);
    let stem = file_stem_of(path);
    let ext_text = match &ext {
        Some(e) => Some(e.as_str()),
        None => None,
    };
    let stem_text = match &stem {
        Some(st) => Some(st.as_str()),
        None => None,
    };
    check_path_parts(ext_text, stem_text)
}

/// Configuration for the interpreter: whether to print debug output, and
/// the file to execute instead of starting the REPL.
pub struct Config {
    pub debug: bool,
    pub file_path: Option<String>,
}

/// The arguments after the program name, read from position `i` with the
/// flag and file found so far: `--debug` or `-d` turns on debug output,
/// another argument starting with `-` is unknown, and any other argument is
/// the one file to run, which must pass `path_verdict`.
pub open spec fn args_verdict(args: Seq<Seq<char>>, i: int, debug: bool, file: Option<Seq<char>>) -> Result<(bool, Option<Seq<char>>), Seq<char>>
    decreases args.len() - i,
{
    if i >= args.len() || i < 0 {
        Ok((debug, file))
    } else {
        let arg = args[i];
        if arg == "--debug"@ || arg == "-d"@ {
            args_verdict(args, i + 1, true, file)
        } else if arg.len() > 0 && arg[0] == '-' {
            Err("Unknown argument: "@ + arg)
        } else if file is Some {
            Err("Only one file can be executed at a time"@)
        } else {
            match path_verdict(arg) {
                Ok(_) => args_verdict(args, i + 1, debug, Some(arg)),
                Err(e) => Err(e),
            }
        }
    }
}

/// Parses the command-line arguments (the program name first) into a
/// configuration: `--debug` or `-d` enables debug output, and a `.tp` file
/// is executed instead of starting the REPL. An unknown flag, a second file
/// or an invalid file path is an error.
pub fn parse_args(args: &Vec<String>) -> (r: Result<Config, String>)
    requires
        args@.len() >= 1,
    ensures
        ({
            let v = args_verdict(args@.map_values(|s: String| s@), 1, false, None);
            match r {
                Ok(c) => v matches Ok((d, f)) && c.debug == d && match c.file_path {
                    Some(p) => f == Some(p@),
                    None => f is None,
                },
                Err(e) => v == Err::<(bool, Option<Seq<char>>), Seq<char>>(e@),
            }
        }),
{
    let ghost sargs = args@.map_values(|s: String| s@);
    let mut debug = false;
    let mut file_path: Option<String> = None;
    let mut i: usize = 1;
    while i < args.len()
        invariant
            1 <= i <= args@.len(),
            sargs == args@.map_values(|s: String| s@),
            args_verdict(sargs, 1, false, None) == args_verdict(sargs, i as int, debug, match file_path {
                Some(p) => Some(p@),
                None => None,
            }),
        decreases args@.len() - i,
    {
        let arg = args[i].as_str();
        assert(sargs[i as int] == arg@);
        if text_eq(arg, "--debug") || text_eq(arg, "-d") {
            debug = true;
        } else if starts_with_dash(arg) {
            let mut e = text_of("Unknown argument: ");
            e.append(arg);
            return Err(e);
        } else {
            if file_path.is_some() {
                return Err(text_of("Only one file can be executed at a time"));
            }
            match validate_file_path(arg) {
                Ok(()) => {},
                Err(e) => return Err(e),
            }
            file_path = Some(args[i].clone());
        }
        i = i + 1;
    }
    Ok(Config { debug, file_path })
}

/// Whether the text starts with `-`.
fn starts_with_dash(s: &str) -> (r: bool)
    ensures
        r == (s@.len() > 0 && s@[0] == '-'),
{
    let cs = chars_of(s);
    cs.len() > 0 && cs[0] == '-'
}

} // verus!
