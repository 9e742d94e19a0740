//! Auto-memory: the capped `MEMORY.md` preamble injected into the system prompt.
use vstd::prelude::*;
use vstd::string::StringExecFns;
use crate::text::{
    byte_len, char_vec, char_width, lemma_byte_len_concat, lemma_byte_len_push,
    lemma_byte_len_single, string_from_chars, utf8_width,
};

verus! {

/// Index file at the root of a memory directory.
pub const MEMORY_INDEX: &'static str = "MEMORY.md";

/// Sub-directory name probed under the project root and the config dir.
pub const MEMORY_SUBDIR: &'static str = "memory";

/// The preamble keeps at most this many lines...
pub const MAX_PREAMBLE_LINES: usize = 200;

/// ...and at most this many bytes, whichever limit is hit first.
pub const MAX_PREAMBLE_BYTES: usize = 8192;

/// Header framing the injected block as standing project context.
pub const PREAMBLE_HEADER: &'static str = "# Project memory";

/// A loaded memory preamble and where it came from.
#[derive(Debug)]
pub struct MemoryPreamble {
    /// The capped `MEMORY.md` content, without the header.
    pub text: String,
    /// Whether the line or byte cap dropped content.
    pub truncated: bool,
    /// The path of the `MEMORY.md` file the content was read from.
    pub source: String,
}

impl MemoryPreamble {
    /// The block injected into the system prompt: the header, a newline, then the text.
    pub fn as_system_block(&self) -> (res: String)
        ensures
            res@ == PREAMBLE_HEADER@ + seq!['\n'] + self.text@,
    {
        let mut s = PREAMBLE_HEADER.to_owned();
        s.append("\n");
        s.append(self.text.as_str());
        proof {
            reveal_strlit("\n");
        }
        s
    }
}

// ----- Messages -----

/// Who speaks a message.
#[derive(PartialEq, Eq, Structural, Debug, Clone, Copy)]
pub enum MessageRole {
    System,
    Assistant,
    User,
    Tool,
}

/// What a message carries: text, or a list of parts.
#[derive(Debug)]
pub enum MessageContent {
    Text(String),
    Array(Vec<String>),
}

/// One message of a conversation.
#[derive(Debug)]
pub struct Message {
    pub role: MessageRole,
    pub content: MessageContent,
}

impl Message {
    pub fn new(role: MessageRole, content: MessageContent) -> (res: Message)
        ensures
            res.role == role,
            res.content == content,
    {
        Message { role, content }
    }
}

/// A system message whose content is text.
pub open spec fn is_system_text(m: Message) -> bool {
    m.role == MessageRole::System && m.content is Text
}

/// `i` is the first system message with text content.
pub open spec fn is_first_system_text(ms: Seq<Message>, i: int) -> bool {
    &&& 0 <= i < ms.len()
    &&& is_system_text(ms[i])
    &&& forall|j: int| 0 <= j < i ==> !is_system_text(#[trigger] ms[j])
}

pub open spec fn has_system_text(ms: Seq<Message>) -> bool {
    exists|i: int| 0 <= i < ms.len() && is_system_text(#[trigger] ms[i])
}

/// Inject a memory block into the system message of an assembled message list: appended,
/// after a blank line, to the first system message that holds text; if there is none, a
/// system message carrying the block is put first.
pub fn inject_preamble(messages: &mut Vec<Message>, block: &str)
    ensures
        has_system_text(old(messages)@) ==> exists|i: int|
            #![trigger is_first_system_text(old(messages)@, i)]
            {
                &&& is_first_system_text(old(messages)@, i)
                &&& final(messages)@.len() == old(messages)@.len()
                &&& forall|j: int|
                    0 <= j < old(messages)@.len() && j != i ==> final(messages)@[j] == old(
                        messages,
                    )@[j]
                &&& final(messages)@[i].role == MessageRole::System
                &&& final(messages)@[i].content matches MessageContent::Text(t)
                &&& t@ == old(messages)@[i].content->Text_0@ + seq!['\n', '\n'] + block@
            },
        !has_system_text(old(messages)@) ==> {
            &&& final(messages)@.len() == old(messages)@.len() + 1
            &&& final(messages)@[0].role == MessageRole::System
            &&& final(messages)@[0].content matches MessageContent::Text(t)
            &&& t@ == block@
            &&& forall|j: int|
                0 <= j < old(messages)@.len() ==> final(messages)@[j + 1] == old(messages)@[j]
        },
{
    let mut i: usize = 0;
    while i < messages.len()
        invariant
            i <= messages@.len(),
            messages@ == old(messages)@,
            forall|j: int| 0 <= j < i ==> !is_system_text(#[trigger] messages@[j]),
        decreases messages.len() - i,
    {
        if messages[i].role == MessageRole::System {
            let appended = match &messages[i].content {
                MessageContent::Text(text) => {
                    let mut t = text.clone();
                    t.append("\n\n");
                    t.append(block);
                    Some(t)
                },
                MessageContent::Array(_) => None,
            };
            match appended {
                Some(t) => {
                    proof {
                        reveal_strlit("\n\n");
                        assert(is_first_system_text(old(messages)@, i as int));
                    }
                    messages.set(
                        i,
                        Message { role: MessageRole::System, content: MessageContent::Text(t) },
                    );
                    return ;
                },
                None => {},
            }
        }
        i += 1;
    }
    proof {
        assert forall|j: int| 0 <= j < old(messages)@.len() implies !is_system_text(
            #[trigger] old(messages)@[j],
        ) by {
            assert(messages@[j] == old(messages)@[j]);
        }
    }
    messages.insert(
        0,
        Message::new(MessageRole::System, MessageContent::Text(block.to_owned())),
    );
}

// ----- Loading -----

/// The Unicode `White_Space` characters, which `char::is_whitespace` recognises.
pub open spec fn is_white_space(c: char) -> bool {
    let v = c as u32;
    ||| 0x09 <= v <= 0x0d
    ||| v == 0x20
    ||| v == 0x85
    ||| v == 0xa0
    ||| v == 0x1680
    ||| 0x2000 <= v <= 0x200a
    ||| v == 0x2028
    ||| v == 0x2029
    ||| v == 0x202f
    ||| v == 0x205f
    ||| v == 0x3000
}

/// `char::is_whitespace`: whether `c` has the Unicode `White_Space` property.
#[verifier::external_body]
fn char_is_whitespace(c: char) -> (res: bool)
    ensures
        res == is_white_space(c),
{
    c.is_whitespace()
}

/// Nothing but white space: what `s.trim().is_empty()` tests.
pub open spec fn is_blank(s: Seq<char>) -> bool {
    forall|i: int| 0 <= i < s.len() ==> is_white_space(#[trigger] s[i])
}

fn blank(s: &Vec<char>) -> (res: bool)
    ensures
        res == is_blank(s@),
{
    let mut i: usize = 0;
    while i < s.len()
        invariant
            i <= s@.len(),
            forall|j: int| 0 <= j < i ==> is_white_space(#[trigger] s@[j]),
        decreases s.len() - i,
    {
        if !char_is_whitespace(s[i]) {
            return false;
        }
        i += 1;
    }
    true
}

/// The preamble made of the content `raw` of the `MEMORY.md` at `source`: nothing when the
/// content is blank or the capped text is blank, else the capped text.
pub fn preamble_from_contents(raw: &str, source: String) -> (res: Option<MemoryPreamble>)
    ensures
        res is None <==> is_blank(raw@) || is_blank(cap_text(raw@)),
        res matches Some(p) ==> p.text@ == cap_text(raw@) && p.truncated == cap_truncated(raw@)
            && p.source == source,
{
    let chars = char_vec(raw);
    if blank(&chars) {
        return None;
    }
    let (text, truncated) = cap_preamble(raw);
    let capped = char_vec(text.as_str());
    if blank(&capped) {
        return None;
    }
    Some(MemoryPreamble { text, truncated, source })
}

// ----- Line splitting -----

/// A line that was ended by `\n` loses one `\r` before it.
pub open spec fn strip_cr(l: Seq<char>) -> Seq<char> {
    if l.len() > 0 && l.last() == '\r' {
        l.drop_last()
    } else {
        l
    }
}

/// Splitting `s` at `\n`: the finished lines, and the unfinished line after the last `\n`.
pub open spec fn split_state(s: Seq<char>) -> (Seq<Seq<char>>, Seq<char>)
    decreases s.len(),
{
    if s.len() == 0 {
        (seq![], seq![])
    } else {
        let (done, cur) = split_state(s.drop_last());
        if s.last() == '\n' {
            (done.push(strip_cr(cur)), seq![])
        } else {
            (done, cur.push(s.last()))
        }
    }
}

/// The lines of `s`, as `str::lines` yields them: split at `\n` or `\r\n`, with no empty
/// last line after a final line ending.
pub open spec fn lines_of(s: Seq<char>) -> Seq<Seq<char>> {
    let (done, cur) = split_state(s);
    if cur.len() == 0 {
        done
    } else {
        done.push(cur)
    }
}

/// Lines joined with `\n` between them.
pub open spec fn join_lines(ls: Seq<Seq<char>>) -> Seq<char>
    decreases ls.len(),
{
    if ls.len() == 0 {
        seq![]
    } else if ls.len() == 1 {
        ls[0]
    } else {
        join_lines(ls.drop_last()) + seq!['\n'] + ls.last()
    }
}

pub open spec fn line_views(v: Seq<Vec<char>>) -> Seq<Seq<char>> {
    v.map_values(|l: Vec<char>| l@)
}

fn split_lines(chars: &Vec<char>) -> (res: Vec<Vec<char>>)
    ensures
        line_views(res@) == lines_of(chars@),
{
    let mut done: Vec<Vec<char>> = Vec::new();
    let mut cur: Vec<char> = Vec::new();
    let mut i: usize = 0;
    while i < chars.len()
        invariant
            i <= chars.len(),
            split_state(chars@.take(i as int)) == (line_views(done@), cur@),
        decreases chars.len() - i,
    {
        assert(chars@.take(i + 1).drop_last() =~= chars@.take(i as int));
        assert(chars@.take(i + 1).last() == chars@[i as int]);
        let c = chars[i];
        if c == '\n' {
            if cur.len() > 0 && cur[cur.len() - 1] == '\r' {
                cur.pop();
            }
            let ghost before = done@;
            let line = cur;
            done.push(line);
            cur = Vec::new();
            assert(line_views(done@) =~= line_views(before).push(line@));
        } else {
            cur.push(c);
        }
        i += 1;
    }
    assert(chars@.take(i as int) =~= chars@);
    if cur.len() > 0 {
        let ghost before = done@;
        done.push(cur);
        assert(line_views(done@) =~= line_views(before).push(cur@));
    }
    done
}

// ----- The cap -----

/// How many lines survive the byte budget when starting from `k`: trailing lines are
/// dropped while more than one is left and the joined text is over budget.
pub open spec fn keep_count(ls: Seq<Seq<char>>, k: int) -> int
    decreases k,
{
    if k <= 1 || byte_len(join_lines(ls.take(k))) <= MAX_PREAMBLE_BYTES {
        k
    } else {
        keep_count(ls, k - 1)
    }
}

/// How many leading characters of `s` fit in `budget` bytes.
pub open spec fn fit_count(s: Seq<char>, budget: int) -> nat
    decreases s.len(),
{
    if s.len() == 0 || char_width(s[0]) > budget {
        0
    } else {
        1 + fit_count(s.drop_first(), budget - char_width(s[0]))
    }
}

/// The lines kept by the line cap.
pub open spec fn line_capped(raw: Seq<char>) -> int {
    if lines_of(raw).len() > MAX_PREAMBLE_LINES {
        MAX_PREAMBLE_LINES as int
    } else {
        lines_of(raw).len() as int
    }
}

/// The lines kept by both caps, joined.
pub open spec fn capped_join(raw: Seq<char>) -> Seq<char> {
    join_lines(lines_of(raw).take(keep_count(lines_of(raw), line_capped(raw))))
}

/// The capped preamble: the kept lines joined, and a lone line over the byte budget cut
/// to the characters that fit.
pub open spec fn cap_text(raw: Seq<char>) -> Seq<char> {
    let j = capped_join(raw);
    if byte_len(j) > MAX_PREAMBLE_BYTES {
        j.take(fit_count(j, MAX_PREAMBLE_BYTES as int) as int)
    } else {
        j
    }
}

/// Whether the cap dropped anything: lines past the line cap, trailing lines over the
/// byte budget, or the tail of a lone over-budget line.
pub open spec fn cap_truncated(raw: Seq<char>) -> bool {
    ||| lines_of(raw).len() > MAX_PREAMBLE_LINES
    ||| keep_count(lines_of(raw), line_capped(raw)) < line_capped(raw)
    ||| byte_len(capped_join(raw)) > MAX_PREAMBLE_BYTES
}

/// `min(byte_len(join of the first k lines), budget + 1)`: whether they fit in the budget,
/// without overflow however long the lines are.
fn join_fits(lines: &Vec<Vec<char>>, k: usize, budget: usize) -> (res: bool)
    requires
        k <= lines@.len(),
        budget <= MAX_PREAMBLE_BYTES,
    ensures
        res == (byte_len(join_lines(line_views(lines@).take(k as int))) <= budget),
{
    let ghost ls = line_views(lines@);
    let mut total: usize = 0;
    let mut i: usize = 0;
    while i < k
        invariant
            i <= k <= lines@.len(),
            ls == line_views(lines@),
            budget <= MAX_PREAMBLE_BYTES,
            total as int == if byte_len(join_lines(ls.take(i as int))) > budget {
                budget + 1
            } else {
                byte_len(join_lines(ls.take(i as int))) as int
            },
        decreases k - i,
    {
        let ghost prev = byte_len(join_lines(ls.take(i as int)));
        let line = &lines[i];
        assert(ls[i as int] == line@);
        let ghost base: int = if i > 0 {
            prev as int + 1
        } else {
            0int
        };
        if i > 0 {
            total = if total + 1 > budget {
                budget + 1
            } else {
                total + 1
            };
        }
        let mut j: usize = 0;
        while j < line.len()
            invariant
                j <= line@.len(),
                budget <= MAX_PREAMBLE_BYTES,
                total as int == if base + byte_len(line@.take(j as int)) > budget {
                    budget + 1
                } else {
                    base + byte_len(line@.take(j as int))
                },
            decreases line.len() - j,
        {
            proof {
                assert(line@.take(j + 1) =~= line@.take(j as int).push(line@[j as int]));
                lemma_byte_len_push(line@.take(j as int), line@[j as int]);
            }
            let w = utf8_width(line[j]);
            total = if total + w > budget {
                budget + 1
            } else {
                total + w
            };
            j += 1;
        }
        proof {
            assert(line@.take(j as int) =~= line@);
            let t = ls.take(i + 1);
            assert(t.drop_last() =~= ls.take(i as int));
            assert(t.last() == line@);
            if i > 0 {
                lemma_byte_len_concat(join_lines(t.drop_last()), seq!['\n']);
                lemma_byte_len_concat(join_lines(t.drop_last()) + seq!['\n'], line@);
                lemma_byte_len_single('\n');
                assert(byte_len(join_lines(t)) == prev + 1 + byte_len(line@));
            } else {
                assert(byte_len(join_lines(t)) == byte_len(line@));
            }
        }
        i += 1;
    }
    total <= budget
}

/// The first `k` lines joined with `\n`.
fn join_prefix(lines: &Vec<Vec<char>>, k: usize) -> (res: Vec<char>)
    requires
        k <= lines@.len(),
    ensures
        res@ == join_lines(line_views(lines@).take(k as int)),
{
    let ghost ls = line_views(lines@);
    let mut out: Vec<char> = Vec::new();
    let mut i: usize = 0;
    while i < k
        invariant
            i <= k <= lines@.len(),
            ls == line_views(lines@),
            out@ == join_lines(ls.take(i as int)),
        decreases k - i,
    {
        let line = &lines[i];
        assert(ls[i as int] == line@);
        let ghost base = out@;
        if i > 0 {
            out.push('\n');
        }
        let ghost start = out@;
        let mut j: usize = 0;
        while j < line.len()
            invariant
                j <= line@.len(),
                out@ == start + line@.take(j as int),
            decreases line.len() - j,
        {
            out.push(line[j]);
            assert(line@.take(j + 1) =~= line@.take(j as int).push(line@[j as int]));
            j += 1;
        }
        proof {
            assert(line@.take(j as int) =~= line@);
            let t = ls.take(i + 1);
            assert(t.drop_last() =~= ls.take(i as int));
            assert(t.last() == line@);
            if i == 0 {
                assert(t.len() == 1);
                assert(out@ =~= t[0]);
            } else {
                assert(out@ =~= base + seq!['\n'] + line@);
            }
        }
        i += 1;
    }
    out
}

/// How many leading characters of `s` fit in `budget` bytes.
fn fit_prefix_len(s: &Vec<char>, budget: usize) -> (n: usize)
    requires
        budget <= MAX_PREAMBLE_BYTES,
    ensures
        n == fit_count(s@, budget as int),
        n <= s@.len(),
{
    let mut n: usize = 0;
    let mut total: usize = 0;
    assert(s@.skip(0) =~= s@);
    loop
        invariant
            n <= s@.len(),
            total <= budget <= MAX_PREAMBLE_BYTES,
            fit_count(s@, budget as int) == n + fit_count(s@.skip(n as int), budget - total),
        decreases s@.len() - n,
    {
        if n >= s.len() {
            return n;
        }
        let w = utf8_width(s[n]);
        assert(s@.skip(n as int)[0] == s@[n as int]);
        if total + w > budget {
            return n;
        }
        assert(s@.skip(n as int).drop_first() =~= s@.skip(n + 1));
        total = total + w;
        n = n + 1;
    }
}

/// Apply the 200-line / 8-KiB cap to raw `MEMORY.md` content: the capped text and whether
/// anything was dropped. Caps on line boundaries first, then drops whole trailing lines
/// while over the byte budget; a lone over-budget line is cut on a character boundary.
pub fn cap_preamble(raw: &str) -> (res: (String, bool))
    ensures
        res.0@ == cap_text(raw@),
        res.1 == cap_truncated(raw@),
{
    let chars = char_vec(raw);
    let lines = split_lines(&chars);
    let ghost ls = line_views(lines@);
    let mut truncated = false;
    let mut kept: usize = lines.len();
    if kept > MAX_PREAMBLE_LINES {
        truncated = true;
        kept = MAX_PREAMBLE_LINES;
    }
    let ghost k0 = kept as int;
    while kept > 1 && !join_fits(&lines, kept, MAX_PREAMBLE_BYTES)
        invariant
            ls == line_views(lines@),
            ls == lines_of(raw@),
            k0 == line_capped(raw@),
            1 <= kept <= k0 || kept == k0,
            kept <= lines@.len(),
            keep_count(ls, k0) == keep_count(ls, kept as int),
            truncated == (ls.len() > MAX_PREAMBLE_LINES || kept < k0),
        decreases kept,
    {
        kept = kept - 1;
        truncated = true;
    }
    let mut joined = join_prefix(&lines, kept);
    if !join_fits(&lines, kept, MAX_PREAMBLE_BYTES) {
        let n = fit_prefix_len(&joined, MAX_PREAMBLE_BYTES);
        joined.truncate(n);
        truncated = true;
    }
    (string_from_chars(&joined), truncated)
}

proof fn lemma_fit_count_fits(s: Seq<char>, budget: int)
    requires
        budget >= 0,
    ensures
        fit_count(s, budget) <= s.len(),
        byte_len(s.take(fit_count(s, budget) as int)) <= budget,
    decreases s.len(),
{
    if s.len() == 0 || char_width(s[0]) > budget {
        assert(s.take(0) =~= Seq::<char>::empty());
        assert(byte_len(Seq::<char>::empty()) == 0) by {
            assert(vstd::utf8::encode_utf8(Seq::<char>::empty()) =~= Seq::<u8>::empty());
        }
    } else {
        let n = fit_count(s.drop_first(), budget - char_width(s[0]));
        lemma_fit_count_fits(s.drop_first(), budget - char_width(s[0]));
        lemma_byte_len_single(s[0]);
        lemma_byte_len_concat(seq![s[0]], s.drop_first().take(n as int));
        assert(s.take(n as int + 1) =~= seq![s[0]] + s.drop_first().take(n as int));
    }
}

proof fn lemma_keep_count_bounds(ls: Seq<Seq<char>>, k: int)
    requires
        0 <= k <= ls.len(),
    ensures
        keep_count(ls, k) <= k,
        k >= 1 ==> keep_count(ls, k) >= 1,
        k >= 0 ==> keep_count(ls, k) >= 0,
    decreases k,
{
    if k <= 1 || byte_len(join_lines(ls.take(k))) <= MAX_PREAMBLE_BYTES {
    } else {
        lemma_keep_count_bounds(ls, k - 1);
    }
}

proof fn lemma_keep_count_maximal(ls: Seq<Seq<char>>, k: int)
    requires
        0 <= k <= ls.len(),
    ensures
        keep_count(ls, k) <= 1 || byte_len(join_lines(ls.take(keep_count(ls, k))))
            <= MAX_PREAMBLE_BYTES,
        forall|j: int|
            keep_count(ls, k) < j <= k ==> byte_len(#[trigger] join_lines(ls.take(j)))
                > MAX_PREAMBLE_BYTES,
    decreases k,
{
    if k <= 1 || byte_len(join_lines(ls.take(k))) <= MAX_PREAMBLE_BYTES {
    } else {
        lemma_keep_count_maximal(ls, k - 1);
    }
}

/// Joining the first `k` lines gives a prefix of joining all of them.
proof fn lemma_join_take_prefix(ls: Seq<Seq<char>>, k: int)
    requires
        0 <= k <= ls.len(),
    ensures
        join_lines(ls.take(k)).is_prefix_of(join_lines(ls)),
    decreases ls.len() - k,
{
    if k == ls.len() {
        assert(ls.take(k) =~= ls);
    } else {
        lemma_join_take_prefix(ls, k + 1);
        let t = ls.take(k + 1);
        assert(t.drop_last() =~= ls.take(k));
        if k == 0 {
            assert(ls.take(0) =~= Seq::<Seq<char>>::empty());
        }
    }
}

/// Laws of the cap: the result always fits the byte budget; it comes from the first 200
/// lines at most, of which it keeps as many whole lines as fit in 8 KiB; it only ever drops from the end of the (line-normalised) input; it reports truncation exactly when the input has
/// more than 200 lines or more than 8 KiB; and when nothing is dropped it is the input's
/// lines joined unchanged.
pub proof fn lemma_cap_laws(raw: Seq<char>)
    ensures
        byte_len(cap_text(raw)) <= MAX_PREAMBLE_BYTES,
        line_capped(raw) <= MAX_PREAMBLE_LINES,
        keep_count(lines_of(raw), line_capped(raw)) <= 1 || byte_len(capped_join(raw))
            <= MAX_PREAMBLE_BYTES,
        forall|j: int|
            keep_count(lines_of(raw), line_capped(raw)) < j <= line_capped(raw) ==> byte_len(
                #[trigger] join_lines(lines_of(raw).take(j)),
            ) > MAX_PREAMBLE_BYTES,
        cap_text(raw).is_prefix_of(join_lines(lines_of(raw).take(line_capped(raw)))),
        cap_text(raw).is_prefix_of(join_lines(lines_of(raw))),
        cap_truncated(raw) <==> (lines_of(raw).len() > MAX_PREAMBLE_LINES || byte_len(
            join_lines(lines_of(raw)),
        ) > MAX_PREAMBLE_BYTES),
        !cap_truncated(raw) ==> cap_text(raw) == join_lines(lines_of(raw)),
{
    let ls = lines_of(raw);
    let k0 = line_capped(raw);
    let k = keep_count(ls, k0);
    lemma_keep_count_bounds(ls, k0);
    lemma_keep_count_maximal(ls, k0);
    let j = capped_join(raw);
    lemma_join_take_prefix(ls, k);
    lemma_join_take_prefix(ls.take(k0), k);
    assert(ls.take(k0).take(k) =~= ls.take(k));
    if byte_len(j) > MAX_PREAMBLE_BYTES {
        lemma_fit_count_fits(j, MAX_PREAMBLE_BYTES as int);
        let n = fit_count(j, MAX_PREAMBLE_BYTES as int);
        assert(j.take(n as int).is_prefix_of(j));
    }
    assert(ls.take(ls.len() as int) =~= ls);
    if ls.len() <= MAX_PREAMBLE_LINES {
        assert(k0 == ls.len());
        if byte_len(join_lines(ls)) > MAX_PREAMBLE_BYTES {
            if ls.len() >= 2 {
                assert(keep_count(ls, k0) == keep_count(ls, k0 - 1));
                lemma_keep_count_bounds(ls, k0 - 1);
            } else if ls.len() == 0 {
                assert(join_lines(ls) =~= Seq::<char>::empty());
                assert(vstd::utf8::encode_utf8(Seq::<char>::empty()) =~= Seq::<u8>::empty());
            }
        }
        if k < k0 {
            assert(byte_len(join_lines(ls.take(k0))) > MAX_PREAMBLE_BYTES);
        }
    }
}

} // verus!
