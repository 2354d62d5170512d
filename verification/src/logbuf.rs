//! Ring buffer of recent log lines, feeding the in-app "Console" window.
//! The buffer keeps the newest `MAX_LINES` lines, oldest first. Sharing it
//! between threads is done by the caller.

use vstd::prelude::*;
use std::collections::VecDeque;
use crate::text::{chars_of, string_from_chars};

verus! {

/// How many lines the buffer keeps.
pub const MAX_LINES: usize = 2000;

/// The last `n` elements of `s` (all of `s` when it is shorter).
pub open spec fn keep_last<A>(s: Seq<A>, n: nat) -> Seq<A> {
    if s.len() > n {
        s.skip(s.len() - n)
    } else {
        s
    }
}

/// What `String::from_utf8_lossy` decodes from these bytes: the UTF-8 text,
/// with each invalid sequence replaced by U+FFFD.
pub uninterp spec fn utf8_lossy(bytes: Seq<u8>) -> Seq<char>;

/// `String::from_utf8_lossy`: decode bytes as UTF-8, replacing invalid
/// sequences. Its result is a function of the bytes alone and is named
/// `utf8_lossy`; the decoder's rules are not written out here.
#[verifier::external_body]
pub(crate) fn decode_lossy(buf: &[u8]) -> (r: String)
    ensures
        r@ == utf8_lossy(buf@),
{
    String::from_utf8_lossy(buf).into_owned()
}

/// `c` without one trailing carriage return.
pub open spec fn strip_cr(c: Seq<char>) -> Seq<char> {
    if c.len() > 0 && c.last() == '\r' {
        c.drop_last()
    } else {
        c
    }
}

/// Splitting at `\n`: the lines ended so far (each without its `\n` and
/// without a `\r` just before it) and the unterminated rest.
pub open spec fn split_at_newlines(s: Seq<char>) -> (Seq<Seq<char>>, Seq<char>)
    decreases s.len(),
{
    if s.len() == 0 {
        (Seq::empty(), Seq::empty())
    } else {
        let (done, cur) = split_at_newlines(s.drop_last());
        if s.last() == '\n' {
            (done.push(strip_cr(cur)), Seq::empty())
        } else {
            (done, cur.push(s.last()))
        }
    }
}

/// The lines of a text as `str::lines` yields them: split at `\n` or
/// `\r\n`, the final line ending optional (an unterminated last line keeps
/// any trailing `\r`).
pub open spec fn text_lines(s: Seq<char>) -> Seq<Seq<char>> {
    let (done, cur) = split_at_newlines(s);
    if cur.len() > 0 {
        done.push(cur)
    } else {
        done
    }
}

/// The non-empty elements of `s`, in order.
pub open spec fn non_empty(s: Seq<Seq<char>>) -> Seq<Seq<char>>
    decreases s.len(),
{
    if s.len() == 0 {
        Seq::empty()
    } else if s.last().len() > 0 {
        non_empty(s.drop_last()).push(s.last())
    } else {
        non_empty(s.drop_last())
    }
}

/// The lines of `s`, as `str::lines` yields them.
pub fn lines_of(s: &str) -> (r: Vec<String>)
    ensures
        r@.map_values(|l: String| l@) == text_lines(s@),
{
    let cs = chars_of(s);
    let mut out: Vec<String> = Vec::new();
    let mut start: usize = 0;
    let mut k: usize = 0;
    while k < cs.len()
        invariant
            start <= k <= cs@.len(),
            cs@ == s@,
            split_at_newlines(cs@.take(k as int)) == (
                out@.map_values(|l: String| l@),
                cs@.subrange(start as int, k as int),
            ),
        decreases cs@.len() - k,
    {
        proof {
            assert(cs@.take(k + 1).drop_last() =~= cs@.take(k as int));
        }
        if cs[k] == '\n' {
            let end = if k > start && cs[k - 1] == '\r' {
                k - 1
            } else {
                k
            };
            let line = string_from_chars(&cs, start, end);
            let ghost before = out@;
            out.push(line);
            proof {
                let cur = cs@.subrange(start as int, k as int);
                assert(strip_cr(cur) =~= cs@.subrange(start as int, end as int));
                assert(out@.map_values(|l: String| l@) =~= before.map_values(|l: String| l@).push(
                    strip_cr(cur),
                ));
                assert(cs@.subrange((k + 1) as int, (k + 1) as int) =~= Seq::<char>::empty());
            }
            start = k + 1;
        } else {
            proof {
                assert(cs@.subrange(start as int, k + 1) =~= cs@.subrange(
                    start as int,
                    k as int,
                ).push(cs@[k as int]));
            }
        }
        k = k + 1;
    }
    assert(cs@.take(cs@.len() as int) =~= cs@);
    if start < cs.len() {
        let line = string_from_chars(&cs, start, cs.len());
        let ghost before = out@;
        out.push(line);
        assert(out@.map_values(|l: String| l@) =~= before.map_values(|l: String| l@).push(
            cs@.subrange(start as int, cs@.len() as int),
        ));
    }
    out
}

/// The newest log lines, oldest first.
pub struct LogBuffer {
    lines: VecDeque<String>,
}

impl View for LogBuffer {
    type V = Seq<Seq<char>>;

    closed spec fn view(&self) -> Seq<Seq<char>> {
        self.lines@.map_values(|l: String| l@)
    }
}

impl LogBuffer {
    /// An empty buffer.
    pub fn new() -> (r: Self)
        ensures
            r@ == Seq::<Seq<char>>::empty(),
    {
        let r = LogBuffer { lines: VecDeque::new() };
        assert(r@ =~= Seq::<Seq<char>>::empty());
        r
    }

    /// Append one line, dropping the oldest lines beyond `MAX_LINES`.
    pub fn push(&mut self, line: &str)
        ensures
            final(self)@ == keep_last(old(self)@.push(line@), MAX_LINES as nat),
    {
        let ghost full = old(self)@.push(line@);
        self.lines.push_back(String::from_str(line));
        assert(self@ =~= full);
        let ghost mut dropped: int = 0;
        while self.lines.len() > MAX_LINES
            invariant
                0 <= dropped <= full.len(),
                self@ == full.skip(dropped),
                self.lines@.len() == full.len() - dropped,
                self.lines@.len() <= MAX_LINES ==> self@ == keep_last(full, MAX_LINES as nat),
                self.lines@.len() < MAX_LINES || full.len() - dropped >= MAX_LINES,
            decreases self.lines@.len(),
        {
            let ghost before = self.lines@;
            let ghost before_view = self@;
            let _ = self.lines.pop_front();
            proof {
                dropped = dropped + 1;
                assert(self.lines@ =~= before.subrange(1, before.len() as int));
                assert(self@ =~= before_view.drop_first());
                assert(full.skip(dropped) =~= full.skip(dropped - 1).drop_first());
                if self.lines@.len() <= MAX_LINES {
                    assert(full.len() - dropped == MAX_LINES);
                }
            }
        }
    }

    /// All buffered lines, oldest first.
    pub fn snapshot(&self) -> (r: Vec<String>)
        ensures
            r@.map_values(|l: String| l@) == self@,
    {
        let mut out: Vec<String> = Vec::new();
        let mut k: usize = 0;
        while k < self.lines.len()
            invariant
                k <= self.lines@.len(),
                out@.map_values(|l: String| l@) == self@.take(k as int),
            decreases self.lines@.len() - k,
        {
            let ghost before = out@;
            let line = self.lines[k].clone();
            assert(line@ == self.lines@[k as int]@);
            out.push(line);
            assert(out@.map_values(|l: String| l@) =~= before.map_values(|l: String| l@).push(
                self.lines@[k as int]@,
            ));
            assert(self@.take(k + 1) =~= self@.take(k as int).push(self@[k as int]));
            k = k + 1;
        }
        assert(self@.take(self.lines@.len() as int) =~= self@);
        out
    }

    /// Append the non-empty lines of a piece of log text, in order.
    pub fn push_text(&mut self, text: &str)
        ensures
            final(self)@ == pushed_all(old(self)@, non_empty(text_lines(text@))),
    {
        let lines = lines_of(text);
        let ghost ls = lines@.map_values(|l: String| l@);
        let ghost start = self@;
        let mut k: usize = 0;
        while k < lines.len()
            invariant
                k <= lines@.len(),
                ls == lines@.map_values(|l: String| l@),
                self@ == pushed_all(start, non_empty(ls.take(k as int))),
            decreases lines@.len() - k,
        {
            proof {
                assert(ls.take(k + 1).drop_last() =~= ls.take(k as int));
            }
            if lines[k].as_str().is_empty() == false {
                self.push(lines[k].as_str());
                proof {
                    lemma_pushed_all_push(start, non_empty(ls.take(k as int)), ls[k as int]);
                }
            }
            k = k + 1;
        }
        assert(ls.take(lines@.len() as int) =~= ls);
    }

    /// Append the non-empty lines of a chunk of log output (decoded as
    /// UTF-8, invalid sequences replaced); returns the number of bytes
    /// consumed, which is all of them.
    pub fn write(&mut self, buf: &[u8]) -> (r: usize)
        ensures
            r == buf@.len(),
            final(self)@ == pushed_all(old(self)@, non_empty(text_lines(utf8_lossy(buf@)))),
    {
        let text = decode_lossy(buf);
        self.push_text(text.as_str());
        buf.len()
    }
}

/// The buffer after pushing each of `lines` in turn.
pub open spec fn pushed_all(buf: Seq<Seq<char>>, lines: Seq<Seq<char>>) -> Seq<Seq<char>>
    decreases lines.len(),
{
    if lines.len() == 0 {
        buf
    } else {
        keep_last(pushed_all(buf, lines.drop_last()).push(lines.last()), MAX_LINES as nat)
    }
}

proof fn lemma_pushed_all_push(buf: Seq<Seq<char>>, lines: Seq<Seq<char>>, l: Seq<char>)
    ensures
        pushed_all(buf, lines.push(l)) == keep_last(pushed_all(buf, lines).push(l), MAX_LINES as nat),
{
    assert(lines.push(l).drop_last() =~= lines);
}

/// After any push the buffer holds at most `MAX_LINES` lines, and the line
/// just pushed is the newest one.
pub proof fn lemma_push_bounded_newest_last(buf: Seq<Seq<char>>, line: Seq<char>)
    ensures
        keep_last(buf.push(line), MAX_LINES as nat).len() <= MAX_LINES,
        keep_last(buf.push(line), MAX_LINES as nat).last() == line,
{
}

proof fn lemma_keep_last_push(s: Seq<Seq<char>>, l: Seq<char>)
    ensures
        keep_last(keep_last(s, MAX_LINES as nat).push(l), MAX_LINES as nat) == keep_last(
            s.push(l),
            MAX_LINES as nat,
        ),
{
    let m = MAX_LINES as int;
    if s.len() > m {
        let k = s.skip(s.len() - m);
        assert(k.push(l).skip(1) =~= s.push(l).skip(s.len() + 1 - m));
    }
}

/// After pushing lines one by one onto a buffer of at most `MAX_LINES`
/// lines (an empty one, say), the buffer holds the latest `MAX_LINES` of
/// all those lines, oldest first.
pub proof fn lemma_pushes_keep_latest(buf: Seq<Seq<char>>, lines: Seq<Seq<char>>)
    requires
        buf.len() <= MAX_LINES,
    ensures
        pushed_all(buf, lines) == keep_last(buf + lines, MAX_LINES as nat),
    decreases lines.len(),
{
    if lines.len() == 0 {
        assert(buf + lines =~= buf);
    } else {
        let pre = lines.drop_last();
        lemma_pushes_keep_latest(buf, pre);
        lemma_keep_last_push(buf + pre, lines.last());
        assert((buf + pre).push(lines.last()) =~= buf + lines);
    }
}

/// A writer for log output: each chunk written to it is split into lines
/// and the non-empty ones are appended to a `LogBuffer`.
pub struct BufferWriter;

impl BufferWriter {
    /// Append the non-empty lines of `buf` to `log`; returns the number of
    /// bytes consumed, which is all of them.
    pub fn write(&mut self, log: &mut LogBuffer, buf: &[u8]) -> (r: usize)
        ensures
            r == buf@.len(),
            final(log)@ == pushed_all(old(log)@, non_empty(text_lines(utf8_lossy(buf@)))),
    {
        log.write(buf)
    }

    /// Nothing is buffered outside the log, so there is nothing to flush.
    pub fn flush(&mut self) {
    }
}

} // verus!
