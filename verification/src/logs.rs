//! The in-memory log ring the Android app drains: every log write becomes
//! one line, and only the newest `RING_CAP` lines are kept.

use std::collections::VecDeque;
use vstd::prelude::*;
use vstd::string::StringExecFns;

verus! {

/// Most lines kept.
pub const RING_CAP: usize = 500;

/// A log write without its one trailing newline, if it has one.
pub open spec fn strip_newline(buf: Seq<u8>) -> Seq<u8> {
    if buf.len() > 0 && buf.last() == 10u8 {
        buf.drop_last()
    } else {
        buf
    }
}

/// `buf` without its one trailing newline.
pub fn line_bytes(buf: &[u8]) -> (r: &[u8])
    ensures
        r@ == strip_newline(buf@),
{
    let n = buf.len();
    if n > 0 && buf[n - 1] == 10 {
        vstd::slice::slice_subrange(buf, 0, n - 1)
    } else {
        buf
    }
}

/// The NUL-terminated text handed to the platform logger for a write.
pub fn c_line(buf: &[u8]) -> (r: Vec<u8>)
    ensures
        r@ == strip_newline(buf@).push(0u8),
{
    let mut c = vstd::slice::slice_to_vec(line_bytes(buf));
    c.push(0);
    c
}

/// The newest lines, at most `RING_CAP` of them.
pub struct LogRing {
    lines: VecDeque<String>,
}

/// Lines after appending `line` to `ring`, the oldest dropped when full.
pub open spec fn ring_push(ring: Seq<Seq<char>>, line: Seq<char>) -> Seq<Seq<char>> {
    if ring.len() >= RING_CAP {
        ring.drop_first().push(line)
    } else {
        ring.push(line)
    }
}

/// `lines` joined by `"\n"`.
pub open spec fn join_lines(lines: Seq<Seq<char>>) -> Seq<char>
    decreases lines.len(),
{
    if lines.len() == 0 {
        Seq::empty()
    } else if lines.len() == 1 {
        lines[0]
    } else {
        join_lines(lines.drop_last()) + seq!['\n'] + lines.last()
    }
}

impl LogRing {
    /// The lines held, oldest first.
    pub closed spec fn view(&self) -> Seq<Seq<char>> {
        self.lines@.map_values(|s: String| s@)
    }

    pub closed spec fn wf(&self) -> bool {
        self.lines@.len() <= RING_CAP
    }

    /// An empty ring.
    pub fn new() -> (r: Self)
        ensures
            r.wf(),
            r.view() == Seq::<Seq<char>>::empty(),
    {
        let r = LogRing { lines: VecDeque::new() };
        assert(r.view() =~= Seq::<Seq<char>>::empty());
        r
    }

    /// Records one log write as a line: one trailing newline dropped, the
    /// bytes read as UTF-8 with malformed sequences replaced.
    pub fn record(&mut self, buf: &[u8])
        requires
            old(self).wf(),
        ensures
            final(self).wf(),
            final(self).view() == ring_push(old(self).view(), crate::bindings::utf8_lossy(strip_newline(buf@))),
    {
        let text = crate::bindings::lossy_text(line_bytes(buf));
        self.push_line(text);
    }

    /// Appends a line, dropping the oldest when `RING_CAP` are held.
    pub fn push_line(&mut self, line: String)
        requires
            old(self).wf(),
        ensures
            final(self).wf(),
            final(self).view() == ring_push(old(self).view(), line@),
    {
        let ghost before = self.view();
        if self.lines.len() >= RING_CAP {
            let _ = self.lines.pop_front();
        }
        self.lines.push_back(line);
        assert(self.view() =~= ring_push(before, line@));
    }

    /// Takes all lines, joined by newlines; the ring is empty afterwards.
    pub fn drain(&mut self) -> (r: String)
        ensures
            r@ == join_lines(old(self).view()),
            final(self).view() == Seq::<Seq<char>>::empty(),
            final(self).wf(),
    {
        let ghost all = self.view();
        let mut out = String::new();
        let mut first = true;
        let ghost mut taken: Seq<Seq<char>> = Seq::empty();
        loop
            invariant
                all == taken + self.view(),
                out@ == join_lines(taken),
                first == (taken.len() == 0),
            ensures
                out@ == join_lines(all),
                self.view() == Seq::<Seq<char>>::empty(),
            decreases self.lines@.len(),
        {
            match self.lines.pop_front() {
                Some(l) => {
                    let ghost prev = taken;
                    if !first {
                        crate::bindings::push_char(&mut out, '\n');
                    }
                    out.append(l.as_str());
                    first = false;
                    proof {
                        taken = prev.push(l@);
                        assert(taken.drop_last() =~= prev);
                        if prev.len() == 0 {
                            assert(out@ =~= join_lines(taken));
                        }
                        assert(all =~= taken + self.view());
                    }
                },
                None => {
                    assert(taken =~= all);
                    break;
                },
            }
        }
        out
    }
}


/// `ring` after appending each of `lines` in turn.
pub open spec fn push_all(ring: Seq<Seq<char>>, lines: Seq<Seq<char>>) -> Seq<Seq<char>>
    decreases lines.len(),
{
    if lines.len() == 0 {
        ring
    } else {
        push_all(ring_push(ring, lines[0]), lines.drop_first())
    }
}

/// The ring keeps exactly the newest lines: after any sequence of writes it
/// holds the last `RING_CAP` lines written (all of them when fewer), oldest
/// first.
pub proof fn law_ring_keeps_newest_lines(ring: Seq<Seq<char>>, lines: Seq<Seq<char>>)
    requires
        ring.len() <= RING_CAP,
    ensures
        push_all(ring, lines) == (ring + lines).skip(
            if ring.len() + lines.len() > RING_CAP { ring.len() + lines.len() - RING_CAP } else { 0 },
        ),
        push_all(ring, lines).len() <= RING_CAP,
    decreases lines.len(),
{
    let all = ring + lines;
    if lines.len() == 0 {
        assert(all.skip(0) =~= ring);
    } else {
        let l0 = lines[0];
        let rest = lines.drop_first();
        let r1 = ring_push(ring, l0);
        law_ring_keeps_newest_lines(r1, rest);
        if ring.len() >= RING_CAP {
            assert(r1 + rest =~= all.skip(1));
            assert((r1 + rest).skip(rest.len() as int) =~= all.skip(1 + rest.len() as int));
        } else {
            assert(r1 + rest =~= all);
        }
    }
}

} // verus!
