//! The shells: editing the input line, recognising the command typed (by
//! the kernel's built-in shell and by the user-mode shell), and laying out
//! a directory listing.

use vstd::prelude::*;
use vstd::string::StringSliceAdditionalSpecFns;
use crate::fat32::is_ws;

verus! {

/// The longest input line.
pub const LINE_CAPACITY: usize = 128;

/// The line being typed.
pub struct LineEditor {
    pub buffer: Vec<u8>,
}

/// What a key does to the line.
#[derive(Debug, Clone, Copy, PartialEq, Eq, Structural)]
pub enum EditAction {
    /// Enter: the line is complete; print a newline and run it.
    Submit,
    /// The character was added: echo it.
    Echo(u8),
    /// The last character was removed: echo a backspace.
    Erase,
    /// Nothing changed.
    Ignore,
}

/// A command of the shell.
#[derive(Debug, Clone, PartialEq, Eq)]
pub enum ShellCommand {
    /// A blank line: nothing runs.
    Blank,
    Help,
    Clear,
    Info,
    Date,
    Ls,
    /// `cat`, with its first argument when there is one.
    Cat(Option<Vec<u8>>),
    /// Any other first word.
    Unknown(Vec<u8>),
}

/// A command of the user-mode shell.
#[derive(Debug, Clone, PartialEq, Eq)]
pub enum UserCommand {
    /// A blank line: nothing runs.
    Blank,
    Help,
    Ls,
    /// `cat`, with its first argument when there is one.
    Cat(Option<Vec<u8>>),
    /// `run`, with its first argument when there is one.
    Run(Option<Vec<u8>>),
    Clear,
    /// Any other first word.
    Unknown(Vec<u8>),
}

/// Whitespace in a command line, whose bytes the shell reads as Latin-1
/// characters: the ASCII White_Space characters, U+0085 and U+00A0.
pub open spec fn is_blank(b: u8) -> bool {
    is_ws(b) || b == 0x85 || b == 0xA0
}

/// First index at or after `i` that is not whitespace (or the end).
pub open spec fn word_start(s: Seq<u8>, i: int) -> int
    decreases s.len() - i,
{
    if i < 0 || i >= s.len() || !is_blank(s[i]) {
        i
    } else {
        word_start(s, i + 1)
    }
}

/// First index at or after `i` that is whitespace (or the end).
pub open spec fn word_end(s: Seq<u8>, i: int) -> int
    decreases s.len() - i,
{
    if i < 0 || i >= s.len() || is_blank(s[i]) {
        i
    } else {
        word_end(s, i + 1)
    }
}

/// The first word of `s`, and where it ends.
pub open spec fn first_word(s: Seq<u8>) -> Seq<u8> {
    let a = word_start(s, 0);
    s.subrange(a, word_end(s, a))
}

/// The second word of `s`, if there is one.
pub open spec fn second_word(s: Seq<u8>) -> Option<Seq<u8>> {
    let a = word_start(s, 0);
    let b = word_start(s, word_end(s, a));
    if b < s.len() {
        Some(s.subrange(b, word_end(s, b)))
    } else {
        None
    }
}

/// `c` is the command that line `s` asks for: by its first word, `cat`
/// taking the second word, if any, as its file name; a blank line asks for
/// nothing.
pub open spec fn parsed_as(s: Seq<u8>, c: ShellCommand) -> bool {
    let w = first_word(s);
    if w.len() == 0 {
        c is Blank
    } else if w == seq![104u8, 101u8, 108u8, 112u8] {
        c is Help
    } else if w == seq![99u8, 108u8, 101u8, 97u8, 114u8] {
        c is Clear
    } else if w == seq![105u8, 110u8, 102u8, 111u8] {
        c is Info
    } else if w == seq![100u8, 97u8, 116u8, 101u8] {
        c is Date
    } else if w == seq![108u8, 115u8] {
        c is Ls
    } else if w == seq![99u8, 97u8, 116u8] {
        c matches ShellCommand::Cat(a) && argument_is(s, a)
    } else {
        c matches ShellCommand::Unknown(v) && v@ == w
    }
}

/// The argument `a` a command takes: the second word of `s`, if any.
pub open spec fn argument_is(s: Seq<u8>, a: Option<Vec<u8>>) -> bool {
    match a {
        Some(v) => second_word(s) == Some(v@),
        None => second_word(s) is None,
    }
}

/// `c` is the user-mode shell's command on line `s`: by its first word,
/// `cat` and `run` taking the second word, if any, as their file name; a
/// blank line asks for nothing.
pub open spec fn user_parsed_as(s: Seq<u8>, c: UserCommand) -> bool {
    let w = first_word(s);
    if w.len() == 0 {
        c is Blank
    } else if w == seq![104u8, 101u8, 108u8, 112u8] {
        c is Help
    } else if w == seq![108u8, 115u8] {
        c is Ls
    } else if w == seq![99u8, 97u8, 116u8] {
        c matches UserCommand::Cat(a) && argument_is(s, a)
    } else if w == seq![114u8, 117u8, 110u8] {
        c matches UserCommand::Run(a) && argument_is(s, a)
    } else if w == seq![99u8, 108u8, 101u8, 97u8, 114u8] {
        c is Clear
    } else {
        c matches UserCommand::Unknown(v) && v@ == w
    }
}

proof fn lemma_word_start(s: Seq<u8>, i: int)
    requires
        0 <= i <= s.len(),
    ensures
        i <= word_start(s, i) <= s.len(),
        forall|k: int| i <= k < word_start(s, i) ==> is_blank(#[trigger] s[k]),
        word_start(s, i) < s.len() ==> !is_blank(s[word_start(s, i)]),
    decreases s.len() - i,
{
    if i < s.len() && is_blank(s[i]) {
        lemma_word_start(s, i + 1);
    }
}

proof fn lemma_word_end(s: Seq<u8>, i: int)
    requires
        0 <= i <= s.len(),
    ensures
        i <= word_end(s, i) <= s.len(),
        forall|k: int| i <= k < word_end(s, i) ==> !is_blank(#[trigger] s[k]),
    decreases s.len() - i,
{
    if i < s.len() && !is_blank(s[i]) {
        lemma_word_end(s, i + 1);
    }
}

fn is_space(b: u8) -> (r: bool)
    ensures
        r == is_blank(b),
{
    (9 <= b && b <= 13) || b == 32 || b == 0x85 || b == 0xA0
}

fn skip_spaces(s: &[u8], i: usize) -> (r: usize)
    requires
        i <= s@.len(),
    ensures
        r == word_start(s@, i as int),
{
    let mut j = i;
    while j < s.len() && is_space(s[j])
        invariant
            i <= j <= s@.len(),
            word_start(s@, i as int) == word_start(s@, j as int),
        decreases s@.len() - j,
    {
        j = j + 1;
    }
    j
}

fn skip_word(s: &[u8], i: usize) -> (r: usize)
    requires
        i <= s@.len(),
    ensures
        r == word_end(s@, i as int),
{
    let mut j = i;
    while j < s.len() && !is_space(s[j])
        invariant
            i <= j <= s@.len(),
            word_end(s@, i as int) == word_end(s@, j as int),
        decreases s@.len() - j,
    {
        j = j + 1;
    }
    j
}

fn copy_range(s: &[u8], a: usize, b: usize) -> (r: Vec<u8>)
    requires
        a <= b <= s@.len(),
    ensures
        r@ == s@.subrange(a as int, b as int),
{
    let mut out: Vec<u8> = Vec::new();
    let mut k = a;
    while k < b
        invariant
            a <= k <= b <= s@.len(),
            out@ == s@.subrange(a as int, k as int),
        decreases b - k,
    {
        out.push(s[k]);
        proof {
            assert(s@.subrange(a as int, k + 1) =~= s@.subrange(a as int, k as int).push(s@[k as int]));
        }
        k = k + 1;
    }
    out
}

fn word_is(s: &[u8], a: usize, b: usize, w: &[u8]) -> (r: bool)
    requires
        a <= b <= s@.len(),
    ensures
        r == (s@.subrange(a as int, b as int) == w@),
{
    if b - a != w.len() {
        proof {
            assert(s@.subrange(a as int, b as int).len() != w@.len());
        }
        return false;
    }
    let mut k: usize = 0;
    while k < w.len()
        invariant
            k <= w@.len(),
            b - a == w@.len(),
            a <= b <= s@.len(),
            forall|j: int| 0 <= j < k ==> s@[a + j] == w@[j],
        decreases w@.len() - k,
    {
        if s[a + k] != w[k] {
            proof {
                assert(s@.subrange(a as int, b as int)[k as int] != w@[k as int]);
            }
            return false;
        }
        k = k + 1;
    }
    assert(s@.subrange(a as int, b as int) =~= w@);
    true
}

/// Recognise the command on line `line`; see `command_of`.
pub fn parse_command(line: &[u8]) -> (r: ShellCommand)
    ensures
        parsed_as(line@, r),
{
    proof {
        lemma_word_start(line@, 0);
    }
    let a = skip_spaces(line, 0);
    proof {
        lemma_word_end(line@, a as int);
    }
    let b = skip_word(line, a);
    if a == b {
        return ShellCommand::Blank;
    }
    let help: [u8; 4] = [104, 101, 108, 112];
    let clear: [u8; 5] = [99, 108, 101, 97, 114];
    let info: [u8; 4] = [105, 110, 102, 111];
    let date: [u8; 4] = [100, 97, 116, 101];
    let ls: [u8; 2] = [108, 115];
    let cat: [u8; 3] = [99, 97, 116];
    assert(help@ =~= seq![104u8, 101u8, 108u8, 112u8]);
    assert(clear@ =~= seq![99u8, 108u8, 101u8, 97u8, 114u8]);
    assert(info@ =~= seq![105u8, 110u8, 102u8, 111u8]);
    assert(date@ =~= seq![100u8, 97u8, 116u8, 101u8]);
    assert(ls@ =~= seq![108u8, 115u8]);
    assert(cat@ =~= seq![99u8, 97u8, 116u8]);
    if word_is(line, a, b, &help) {
        ShellCommand::Help
    } else if word_is(line, a, b, &clear) {
        ShellCommand::Clear
    } else if word_is(line, a, b, &info) {
        ShellCommand::Info
    } else if word_is(line, a, b, &date) {
        ShellCommand::Date
    } else if word_is(line, a, b, &ls) {
        ShellCommand::Ls
    } else if word_is(line, a, b, &cat) {
        ShellCommand::Cat(argument_after(line, b))
    } else {
        ShellCommand::Unknown(copy_range(line, a, b))
    }
}

/// The second word of `line`, whose first word ends at `b`.
fn argument_after(line: &[u8], b: usize) -> (r: Option<Vec<u8>>)
    requires
        b == word_end(line@, word_start(line@, 0)),
        word_start(line@, 0) <= b <= line@.len(),
    ensures
        argument_is(line@, r),
{
    proof {
        lemma_word_start(line@, b as int);
    }
    let c = skip_spaces(line, b);
    if c < line.len() {
        proof {
            lemma_word_end(line@, c as int);
        }
        let d = skip_word(line, c);
        Some(copy_range(line, c, d))
    } else {
        None
    }
}

/// Recognise the user-mode shell's command on line `line`.
pub fn parse_user_command(line: &[u8]) -> (r: UserCommand)
    ensures
        user_parsed_as(line@, r),
{
    proof {
        lemma_word_start(line@, 0);
    }
    let a = skip_spaces(line, 0);
    proof {
        lemma_word_end(line@, a as int);
    }
    let b = skip_word(line, a);
    if a == b {
        return UserCommand::Blank;
    }
    let help: [u8; 4] = [104, 101, 108, 112];
    let ls: [u8; 2] = [108, 115];
    let cat: [u8; 3] = [99, 97, 116];
    let run: [u8; 3] = [114, 117, 110];
    let clear: [u8; 5] = [99, 108, 101, 97, 114];
    assert(help@ =~= seq![104u8, 101u8, 108u8, 112u8]);
    assert(ls@ =~= seq![108u8, 115u8]);
    assert(cat@ =~= seq![99u8, 97u8, 116u8]);
    assert(run@ =~= seq![114u8, 117u8, 110u8]);
    assert(clear@ =~= seq![99u8, 108u8, 101u8, 97u8, 114u8]);
    if word_is(line, a, b, &help) {
        UserCommand::Help
    } else if word_is(line, a, b, &ls) {
        UserCommand::Ls
    } else if word_is(line, a, b, &cat) {
        UserCommand::Cat(argument_after(line, b))
    } else if word_is(line, a, b, &run) {
        UserCommand::Run(argument_after(line, b))
    } else if word_is(line, a, b, &clear) {
        UserCommand::Clear
    } else {
        UserCommand::Unknown(copy_range(line, a, b))
    }
}

impl LineEditor {
    /// An empty line.
    pub fn new() -> (r: LineEditor)
        ensures
            r.buffer@.len() == 0,
    {
        LineEditor { buffer: Vec::new() }
    }

    /// Handle one typed character: Enter completes the line, backspace
    /// removes the last character if any, and any other character is added
    /// while the line is shorter than `LINE_CAPACITY`.
    pub fn key(&mut self, c: u8) -> (r: EditAction)
        ensures
            c == 10 ==> r == EditAction::Submit && final(self).buffer@ == old(self).buffer@,
            c == 8 ==> if old(self).buffer@.len() > 0 {
                r == EditAction::Erase && final(self).buffer@ == old(self).buffer@.drop_last()
            } else {
                r == EditAction::Ignore && final(self).buffer@ == old(self).buffer@
            },
            c != 10 && c != 8 ==> if old(self).buffer@.len() < LINE_CAPACITY {
                r == EditAction::Echo(c) && final(self).buffer@ == old(self).buffer@.push(c)
            } else {
                r == EditAction::Ignore && final(self).buffer@ == old(self).buffer@
            },
    {
        if c == 10u8 {
            EditAction::Submit
        } else if c == 8u8 {
            if self.buffer.len() > 0 {
                self.buffer.pop();
                EditAction::Erase
            } else {
                EditAction::Ignore
            }
        } else if self.buffer.len() < LINE_CAPACITY {
            self.buffer.push(c);
            EditAction::Echo(c)
        } else {
            EditAction::Ignore
        }
    }

    /// Take the finished line, leaving the editor empty for the next one.
    pub fn take_line(&mut self) -> (r: Vec<u8>)
        ensures
            r@ == old(self).buffer@,
            final(self).buffer@.len() == 0,
    {
        let mut line: Vec<u8> = Vec::new();
        std::mem::swap(&mut line, &mut self.buffer);
        line
    }
}

/// Index of the last space among the first `n` bytes of `s`, if any.
pub open spec fn last_space_before(s: Seq<u8>, n: int) -> Option<int>
    decreases n,
{
    if n <= 0 {
        None
    } else if s[n - 1] == 32 {
        Some(n - 1)
    } else {
        last_space_before(s, n - 1)
    }
}

/// The characters of UTF-8 text `s`: its bytes that do not continue a
/// character (those outside `0x80..0xC0`).
pub open spec fn char_count(s: Seq<u8>) -> int
    decreases s.len(),
{
    if s.len() == 0 {
        0
    } else {
        char_count(s.drop_last()) + if 0x80 <= s.last() < 0xC0 {
            0int
        } else {
            1int
        }
    }
}

/// `n` spaces (none when `n` is not positive).
pub open spec fn spaces(n: int) -> Seq<u8> {
    Seq::new(if n > 0 { n as nat } else { 0 }, |i: int| 32u8)
}

/// What the user-mode shell prints for one line `line` of a directory
/// listing, split at its last space into a name and a size: two spaces,
/// the name padded with spaces to 12 characters, two spaces, the size and
/// ` bytes`, and a newline; nothing for a line without a space.
pub open spec fn listing_row(line: Seq<u8>) -> Seq<u8> {
    match last_space_before(line, line.len() as int) {
        None => seq![],
        Some(i) => {
            let name = line.subrange(0, i);
            let size = line.subrange(i + 1, line.len() as int);
            seq![32u8, 32u8] + name + spaces(12 - char_count(name)) + seq![32u8, 32u8] + size + seq![
                32u8,
                98u8,
                121u8,
                116u8,
                101u8,
                115u8,
                10u8,
            ]
        },
    }
}

/// First index at or after `i` holding a newline, or the end of `s`.
pub open spec fn line_end(s: Seq<u8>, i: int) -> int
    decreases s.len() - i,
{
    if i < 0 || i >= s.len() || s[i] == 10 {
        i
    } else {
        line_end(s, i + 1)
    }
}

/// What the user-mode shell prints for the listing text `s` from `start`:
/// each line (ended by a newline, less a carriage return just before it;
/// the last line without a newline as it stands) laid out by `listing_row`.
pub open spec fn listing_rows(s: Seq<u8>, start: int) -> Seq<u8>
    decreases s.len() - start,
{
    if start < 0 || start >= s.len() {
        seq![]
    } else {
        let k = line_end(s, start);
        proof {
            lemma_line_end(s, start);
        }
        if k < s.len() {
            let line = s.subrange(start, k);
            let line = if line.len() > 0 && line.last() == 13 {
                line.drop_last()
            } else {
                line
            };
            listing_row(line) + listing_rows(s, k + 1)
        } else {
            listing_row(s.subrange(start, s.len() as int))
        }
    }
}

/// A line ends at or after where it starts, at a newline or the end.
pub proof fn lemma_line_end(s: Seq<u8>, i: int)
    requires
        0 <= i <= s.len(),
    ensures
        i <= line_end(s, i) <= s.len(),
        line_end(s, i) < s.len() ==> s[line_end(s, i)] == 10,
    decreases s.len() - i,
{
    if i < s.len() && s[i] != 10 {
        lemma_line_end(s, i + 1);
    }
}

fn find_line_end(s: &[u8], i: usize) -> (r: usize)
    requires
        i <= s@.len(),
    ensures
        r == line_end(s@, i as int),
{
    let mut j = i;
    while j < s.len() && s[j] != 10
        invariant
            i <= j <= s@.len(),
            line_end(s@, i as int) == line_end(s@, j as int),
        decreases s@.len() - j,
    {
        j = j + 1;
    }
    j
}

/// Append the row for the listing line `s[a..b]` to `out`.
fn push_row(out: &mut Vec<u8>, s: &[u8], a: usize, b: usize)
    requires
        a <= b <= s@.len(),
    ensures
        final(out)@ == old(out)@ + listing_row(s@.subrange(a as int, b as int)),
{
    let ghost line = s@.subrange(a as int, b as int);
    let mut i = b;
    while i > a && s[i - 1] != 32
        invariant
            a <= i <= b <= s@.len(),
            line == s@.subrange(a as int, b as int),
            last_space_before(line, line.len() as int) == last_space_before(line, i - a),
        decreases i,
    {
        assert(line[i - a - 1] == s@[i - 1]);
        i = i - 1;
    }
    if i == a {
        assert(listing_row(line) =~= seq![]);
        return;
    }
    let sp = i - 1;
    assert(line[sp - a] == 32);
    assert(last_space_before(line, line.len() as int) == Some(sp - a));
    let ghost name = line.subrange(0, sp - a);
    assert(name =~= s@.subrange(a as int, sp as int));
    let ghost start = out@;
    out.push(32);
    out.push(32);
    let mut count: usize = 0;
    let mut k = a;
    while k < sp
        invariant
            a <= k <= sp < b <= s@.len(),
            count <= k - a,
            count == char_count(s@.subrange(a as int, k as int)),
            out@ == start + seq![32u8, 32u8] + s@.subrange(a as int, k as int),
        decreases sp - k,
    {
        let c = s[k];
        assert(s@.subrange(a as int, k + 1).drop_last() =~= s@.subrange(a as int, k as int));
        if !(0x80 <= c && c < 0xC0) {
            count = count + 1;
        }
        out.push(c);
        assert(s@.subrange(a as int, k + 1) =~= s@.subrange(a as int, k as int).push(c));
        k = k + 1;
    }
    let ghost before_pad = out@;
    let mut p = count;
    while p < 12
        invariant
            count <= p <= 12 || (p == count && count >= 12),
            out@ == before_pad + spaces(p - count),
        decreases 12 - p,
    {
        out.push(32);
        assert(spaces(p + 1 - count) =~= spaces(p - count).push(32u8));
        p = p + 1;
    }
    assert(out@ =~= before_pad + spaces(12 - count));
    out.push(32);
    out.push(32);
    let ghost before_size = out@;
    let mut q = sp + 1;
    while q < b
        invariant
            sp + 1 <= q <= b <= s@.len(),
            out@ == before_size + s@.subrange(sp + 1, q as int),
        decreases b - q,
    {
        out.push(s[q]);
        assert(s@.subrange(sp + 1, q + 1) =~= s@.subrange(sp + 1, q as int).push(s@[q as int]));
        q = q + 1;
    }
    let tail: [u8; 7] = [32, 98, 121, 116, 101, 115, 10];
    let mut t: usize = 0;
    let ghost before_tail = out@;
    while t < 7
        invariant
            t <= 7,
            out@ == before_tail + tail@.subrange(0, t as int),
        decreases 7 - t,
    {
        out.push(tail[t]);
        assert(tail@.subrange(0, t + 1) =~= tail@.subrange(0, t as int).push(tail@[t as int]));
        t = t + 1;
    }
    assert(tail@ =~= seq![32u8, 98u8, 121u8, 116u8, 101u8, 115u8, 10u8]);
    assert(s@.subrange(sp + 1, b as int) =~= line.subrange(sp - a + 1, line.len() as int));
    assert(out@ =~= start + listing_row(line));
}

/// What the user-mode shell prints for the directory listing `text`, one
/// `name size` line per file; see `listing_rows`.
pub fn format_listing(text: &str) -> (r: Vec<u8>)
    ensures
        r@ == listing_rows(text.spec_bytes(), 0),
{
    let s = text.as_bytes();
    let mut out: Vec<u8> = Vec::new();
    let mut i: usize = 0;
    while i < s.len()
        invariant
            i <= s@.len(),
            s@ == text.spec_bytes(),
            out@ + listing_rows(s@, i as int) == listing_rows(s@, 0),
        decreases s@.len() - i,
    {
        proof {
            lemma_line_end(s@, i as int);
        }
        let k = find_line_end(s, i);
        let ghost rest = listing_rows(s@, i as int);
        if k < s.len() {
            let e = if k > i && s[k - 1] == 13 {
                k - 1
            } else {
                k
            };
            proof {
                let line = s@.subrange(i as int, k as int);
                if k > i && s@[k - 1] == 13 {
                    assert(line.drop_last() =~= s@.subrange(i as int, e as int));
                } else {
                    assert(line =~= s@.subrange(i as int, e as int));
                }
            }
            let ghost before = out@;
            push_row(&mut out, s, i, e);
            assert(out@ + listing_rows(s@, k + 1) =~= before + rest);
            i = k + 1;
        } else {
            let ghost before = out@;
            push_row(&mut out, s, i, k);
            assert(out@ =~= before + rest);
            i = k;
        }
    }
    assert(listing_rows(s@, i as int) =~= seq![]);
    assert(out@ =~= out@ + listing_rows(s@, i as int));
    out
}

} // verus!
