//! The transcluding reader: a stack of frames over file contents that
//! expands `{path}` include directives in HTML, honouring backslash escapes,
//! up to a bounded depth.  The machine here holds only parse state; the
//! caller opens files and answers whether an include target exists.

use vstd::prelude::*;

verus! {

use crate::escape::ESCAPE_BYTE;
use crate::escape::EscapeCounter;
use crate::escape::EscapeResult;
use crate::escape::escape_next_spec;
use crate::paths::transclude_enabled_spec;
use crate::paths::is_transclude_enabled;
use crate::paths::resolve_include_spec;
use crate::paths::resolve_include;
use crate::outside::utf8_to_string;

/// The byte that opens an include directive.
pub const TRANSCLUDE_START_BYTE: u8 = 0x7b;

/// The byte that closes an include directive.
pub const TRANSCLUDE_END_BYTE: u8 = 0x7d;

/// The most frames that may be stacked: includes nested deeper are dropped.
pub const MAX_TRANSCLUDE_DEPTH: usize = 10;

/// Scans content from `pos` with escape-run parity `p`, emitting bytes
/// until the end of the content or an unescaped `{`.  Yields the emitted
/// bytes, the position where scanning stopped, and whether it stopped at an
/// unescaped `{`.
pub open spec fn scan(c: Seq<u8>, pos: int, p: nat) -> (Seq<u8>, int, bool)
    decreases c.len() - pos,
{
    if pos < 0 || pos >= c.len() {
        (Seq::<u8>::empty(), c.len() as int, false)
    } else {
        let b = c[pos];
        if p % 2 == 1 {
            let r = scan(c, pos + 1, escape_next_spec(p, b));
            (seq![b] + r.0, r.1, r.2)
        } else if b == ESCAPE_BYTE {
            scan(c, pos + 1, escape_next_spec(p, b))
        } else if b == TRANSCLUDE_START_BYTE {
            (Seq::<u8>::empty(), pos, true)
        } else {
            let r = scan(c, pos + 1, 0);
            (seq![b] + r.0, r.1, r.2)
        }
    }
}

/// Scans a directive's interior from `pos` (just after the `{`) with
/// escape-run parity `p`, collecting bytes until an unescaped `}`.  Yields
/// the collected bytes, the position just after the scan, and whether the
/// closing `}` was found.
pub open spec fn dscan(c: Seq<u8>, pos: int, p: nat) -> (Seq<u8>, int, bool)
    decreases c.len() - pos,
{
    if pos < 0 || pos >= c.len() {
        (Seq::<u8>::empty(), c.len() as int, false)
    } else {
        let b = c[pos];
        if p % 2 == 1 {
            let r = dscan(c, pos + 1, escape_next_spec(p, b));
            (seq![b] + r.0, r.1, r.2)
        } else if b == ESCAPE_BYTE {
            dscan(c, pos + 1, escape_next_spec(p, b))
        } else if b == TRANSCLUDE_END_BYTE {
            (Seq::<u8>::empty(), pos + 1, true)
        } else {
            let r = dscan(c, pos + 1, 0);
            (seq![b] + r.0, r.1, r.2)
        }
    }
}

/// Runs [`scan`] over a content vector.
pub fn scan_exec(c: &Vec<u8>, pos: usize, parity: usize) -> (r: (Vec<u8>, usize, bool))
    requires
        pos <= c@.len(),
        parity <= 1,
    ensures
        ({
            let s = scan(c@, pos as int, parity as nat);
            r.0@ == s.0 && r.1 as int == s.1 && r.2 == s.2
        }),
        r.1 <= c@.len(),
        r.2 ==> r.1 < c@.len() && c@[r.1 as int] == TRANSCLUDE_START_BYTE,
{
    let mut out: Vec<u8> = Vec::new();
    let mut i: usize = pos;
    let mut ec = if parity == 1 {
        EscapeCounter::after_escape()
    } else {
        EscapeCounter::new()
    };
    proof {
        assert(out@ + scan(c@, pos as int, parity as nat).0 =~= scan(
            c@,
            pos as int,
            parity as nat,
        ).0);
    }
    while i < c.len()
        invariant
            pos <= i <= c@.len(),
            ec.parity() <= 1,
            ({
                let g = scan(c@, pos as int, parity as nat);
                let s = scan(c@, i as int, ec.parity());
                g.0 == out@ + s.0 && g.1 == s.1 && g.2 == s.2
            }),
        decreases c@.len() - i,
    {
        let ghost pre = out@;
        let ghost p = ec.parity();
        let b = c[i];
        let er = ec.next(b);
        match er {
            EscapeResult::Parse => {
                if b == TRANSCLUDE_START_BYTE {
                    return (out, i, true);
                }
                out.push(b);
                proof {
                    let s = scan(c@, i as int, p);
                    let s2 = scan(c@, i + 1, 0);
                    assert(s.0 == seq![b] + s2.0);
                    assert(pre + (seq![b] + s2.0) =~= (pre + seq![b]) + s2.0);
                    assert(ec.parity() == 0);
                }
                i = i + 1;
            },
            EscapeResult::NoParse => {
                out.push(b);
                proof {
                    let s = scan(c@, i as int, p);
                    let s2 = scan(c@, i + 1, escape_next_spec(p, b));
                    assert(s.0 == seq![b] + s2.0);
                    assert(pre + (seq![b] + s2.0) =~= (pre + seq![b]) + s2.0);
                }
                i = i + 1;
            },
            EscapeResult::Skip => {
                proof {
                    let s = scan(c@, i as int, p);
                    assert(s == scan(c@, i + 1, escape_next_spec(p, b)));
                }
                i = i + 1;
            },
        }
    }
    proof {
        assert(scan(c@, i as int, ec.parity()).0 =~= Seq::<u8>::empty());
        assert(out@ + Seq::<u8>::empty() =~= out@);
    }
    (out, c.len(), false)
}

/// Runs [`dscan`] over a content vector.
pub fn dscan_exec(c: &Vec<u8>, pos: usize) -> (r: (Vec<u8>, usize, bool))
    requires
        pos <= c@.len(),
    ensures
        ({
            let s = dscan(c@, pos as int, 0);
            r.0@ == s.0 && r.1 as int == s.1 && r.2 == s.2
        }),
        pos <= r.1,
        r.1 <= c@.len(),
{
    let mut out: Vec<u8> = Vec::new();
    let mut i: usize = pos;
    let mut ec = EscapeCounter::new();
    proof {
        assert(out@ + dscan(c@, pos as int, 0).0 =~= dscan(c@, pos as int, 0).0);
    }
    while i < c.len()
        invariant
            pos <= i <= c@.len(),
            ec.parity() <= 1,
            ({
                let g = dscan(c@, pos as int, 0);
                let s = dscan(c@, i as int, ec.parity());
                g.0 == out@ + s.0 && g.1 == s.1 && g.2 == s.2
            }),
        decreases c@.len() - i,
    {
        let ghost pre = out@;
        let ghost p = ec.parity();
        let b = c[i];
        let er = ec.next(b);
        match er {
            EscapeResult::Parse => {
                if b == TRANSCLUDE_END_BYTE {
                    proof {
                        let s = dscan(c@, i as int, p);
                        assert(s == (Seq::<u8>::empty(), i + 1, true));
                        assert(pre + Seq::<u8>::empty() =~= pre);
                    }
                    return (out, i + 1, true);
                }
                out.push(b);
                proof {
                    let s = dscan(c@, i as int, p);
                    let s2 = dscan(c@, i + 1, 0);
                    assert(s.0 == seq![b] + s2.0);
                    assert(pre + (seq![b] + s2.0) =~= (pre + seq![b]) + s2.0);
                    assert(ec.parity() == 0);
                }
                i = i + 1;
            },
            EscapeResult::NoParse => {
                out.push(b);
                proof {
                    let s = dscan(c@, i as int, p);
                    let s2 = dscan(c@, i + 1, escape_next_spec(p, b));
                    assert(s.0 == seq![b] + s2.0);
                    assert(pre + (seq![b] + s2.0) =~= (pre + seq![b]) + s2.0);
                }
                i = i + 1;
            },
            EscapeResult::Skip => {
                proof {
                    let s = dscan(c@, i as int, p);
                    assert(s == dscan(c@, i + 1, escape_next_spec(p, b)));
                }
                i = i + 1;
            },
        }
    }
    proof {
        assert(dscan(c@, i as int, ec.parity()).0 =~= Seq::<u8>::empty());
        assert(out@ + Seq::<u8>::empty() =~= out@);
    }
    (out, c.len(), false)
}

/// Transclusion fixed point: content free of `{`, `}` and `\` is emitted
/// byte for byte, with no directive found.
pub proof fn lemma_scan_fixed_point(c: Seq<u8>, pos: int)
    requires
        0 <= pos <= c.len(),
        forall|i: int|
            0 <= i < c.len() ==> #[trigger] c[i] != TRANSCLUDE_START_BYTE && c[i]
                != TRANSCLUDE_END_BYTE && c[i] != ESCAPE_BYTE,
    ensures
        scan(c, pos, 0) == (c.subrange(pos, c.len() as int), c.len() as int, false),
    decreases c.len() - pos,
{
    if pos >= c.len() {
        assert(c.subrange(pos, c.len() as int) =~= Seq::<u8>::empty());
    } else {
        lemma_scan_fixed_point(c, pos + 1);
        assert(seq![c[pos]] + c.subrange(pos + 1, c.len() as int) =~= c.subrange(
            pos,
            c.len() as int,
        ));
    }
}

/// A file with no sentinel bytes at all is reproduced exactly.
pub proof fn lemma_transclusion_fixed_point(c: Seq<u8>)
    requires
        forall|i: int|
            0 <= i < c.len() ==> #[trigger] c[i] != TRANSCLUDE_START_BYTE && c[i]
                != TRANSCLUDE_END_BYTE && c[i] != ESCAPE_BYTE,
    ensures
        scan(c, 0, 0) == (c, c.len() as int, false),
{
    lemma_scan_fixed_point(c, 0);
    assert(c.subrange(0, c.len() as int) =~= c);
}

/// Escape law, literal half: a byte preceded by an unescaped backslash is
/// emitted literally, and scanning continues unescaped after it.  In
/// particular `\{` emits `{` and starts no directive.
pub proof fn lemma_escaped_byte_literal(c: Seq<u8>, pos: int)
    requires
        0 <= pos,
        pos + 2 <= c.len(),
        c[pos] == ESCAPE_BYTE,
    ensures
        ({
            let r = scan(c, pos + 2, 0);
            scan(c, pos, 0) == (seq![c[pos + 1]] + r.0, r.1, r.2)
        }),
{
    assert(escape_next_spec(0, c[pos]) == 1);
    assert(escape_next_spec(1, c[pos + 1]) == 0);
    assert(scan(c, pos, 0) == scan(c, pos + 1, 1));
    let r = scan(c, pos + 2, 0);
    assert(scan(c, pos + 1, 1) == (seq![c[pos + 1]] + r.0, r.1, r.2));
}

/// Escape law, double half: two backslashes emit one backslash, and the
/// byte after them is parsed normally, so `\\{x}` emits `\` and then the
/// directive `{x}` takes effect.
pub proof fn lemma_double_escape_then_directive(c: Seq<u8>, pos: int)
    requires
        0 <= pos,
        pos + 3 <= c.len(),
        c[pos] == ESCAPE_BYTE,
        c[pos + 1] == ESCAPE_BYTE,
        c[pos + 2] == TRANSCLUDE_START_BYTE,
    ensures
        scan(c, pos, 0) == (seq![ESCAPE_BYTE], pos + 2, true),
{
    lemma_escaped_byte_literal(c, pos);
    assert(scan(c, pos + 2, 0) == (Seq::<u8>::empty(), pos + 2, true));
    assert(seq![c[pos + 1]] + Seq::<u8>::empty() =~= seq![ESCAPE_BYTE]);
}


/// One frame of the reader: a source path, its content, and the parse
/// position and escape-run parity inside it.
pub struct Frame {
    pub path: String,
    pub content: Vec<u8>,
    pub pos: usize,
    pub parity: usize,
    pub transclude: bool,
}

impl Frame {
    /// The frame's position and parity are in range.
    pub open spec fn wf(&self) -> bool {
        self.pos <= self.content@.len() && self.parity <= 1
    }
}

/// An include directive awaiting the caller's answer.
pub struct PendingInclude {
    pub path: String,
    pub resume: usize,
}

/// What one advance of the machine produced.
pub enum Step {
    /// Bytes were produced; advance again.
    Out(Vec<u8>),
    /// Bytes were produced and an include directive was found; answer with
    /// `include_found` or `include_missing` before advancing again.
    Include(Vec<u8>, String),
    /// No frames are left: the document is complete.
    Done,
}

/// The transcluding reader's state: a bounded stack of frames, and at most
/// one include directive awaiting resolution.
pub struct TranscludeMachine {
    frames: Vec<Frame>,
    pending: Option<PendingInclude>,
}

impl TranscludeMachine {
    /// The stack of frames, bottom first.
    pub closed spec fn stack(&self) -> Seq<Frame> {
        self.frames@
    }

    /// How many frames are stacked.
    pub open spec fn depth(&self) -> nat {
        self.stack().len()
    }

    /// The frame being read.
    pub open spec fn top(&self) -> Frame {
        self.stack().last()
    }

    /// Whether an include directive awaits an answer.
    pub closed spec fn has_pending(&self) -> bool {
        self.pending is Some
    }

    /// The resolved path of the awaited include.
    pub closed spec fn pending_path(&self) -> Seq<char> {
        match self.pending {
            Some(p) => p.path@,
            None => Seq::<char>::empty(),
        }
    }

    /// Where reading resumes in the top frame once the include is answered.
    pub closed spec fn pending_resume(&self) -> int {
        match self.pending {
            Some(p) => p.resume as int,
            None => 0,
        }
    }

    /// Every frame is in range, and a pending resume point lies within the
    /// top frame.
    pub open spec fn wf(&self) -> bool {
        (forall|i: int| 0 <= i < self.stack().len() ==> (#[trigger] self.stack()[i]).wf())
            && (self.has_pending() ==> self.depth() > 0 && self.top().pos
            <= self.pending_resume() <= self.top().content@.len())
    }

    /// A reader over one root file.  Transclusion is enabled exactly when
    /// the path's extension is `html`, case-insensitively.
    pub fn new(path: String, content: Vec<u8>) -> (r: Self)
        ensures
            r.wf(),
            !r.has_pending(),
            r.depth() == 1,
            r.top().path@ == path@,
            r.top().content@ == content@,
            r.top().pos == 0,
            r.top().parity == 0,
            r.top().transclude == transclude_enabled_spec(path@),
    {
        let enabled = is_transclude_enabled(path.as_str());
        let mut frames: Vec<Frame> = Vec::new();
        frames.push(
            Frame { path, content, pos: 0, parity: 0, transclude: enabled },
        );
        TranscludeMachine { frames, pending: None }
    }

    /// Advances the reader: emits bytes from the top frame up to the end of
    /// the frame (which is then popped) or up to an include directive.  A
    /// directive without a closing brace, or whose path is not UTF-8, is
    /// re-read as literal text starting at its `{`.
    pub fn step(&mut self) -> (r: Step)
        requires
            old(self).wf(),
            !old(self).has_pending(),
        ensures
            final(self).wf(),
            match r {
                Step::Done => old(self).depth() == 0 && final(self).stack() == old(self).stack()
                    && !final(self).has_pending(),
                Step::Out(bytes) => old(self).depth() > 0 && !final(self).has_pending() && ({
                    let f = old(self).top();
                    if !f.transclude {
                        bytes@ == f.content@.subrange(f.pos as int, f.content@.len() as int)
                            && final(self).stack() == old(self).stack().drop_last()
                    } else {
                        let s = scan(f.content@, f.pos as int, f.parity as nat);
                        bytes@ == s.0 && if !s.2 {
                            final(self).stack() == old(self).stack().drop_last()
                        } else {
                            let d = dscan(f.content@, s.1 + 1, 0);
                            (!d.2 || !vstd::utf8::valid_utf8(d.0)) && final(self).stack().len()
                                == old(self).stack().len() && final(self).stack().drop_last()
                                == old(self).stack().drop_last() && final(self).top().path@
                                == f.path@ && final(self).top().content@ == f.content@ && final(self).top().pos == s.1 && final(self).top().parity == 1 && final(self).top().transclude == f.transclude
                        }
                    }
                }),
                Step::Include(bytes, path) => old(self).depth() > 0 && ({
                    let f = old(self).top();
                    let s = scan(f.content@, f.pos as int, f.parity as nat);
                    let d = dscan(f.content@, s.1 + 1, 0);
                    f.transclude && s.2 && d.2 && vstd::utf8::valid_utf8(d.0) && bytes@ == s.0
                        && path@ == resolve_include_spec(vstd::utf8::decode_utf8(d.0), f.path@)
                        && final(self).has_pending() && final(self).pending_path() == path@
                        && final(self).pending_resume() == d.1 && final(self).stack().len() == old(self).stack().len() && final(self).stack().drop_last()
                        == old(self).stack().drop_last() && final(self).top().path@ == f.path@
                        && final(self).top().content@ == f.content@ && final(self).top().pos == s.1
                        && final(self).top().parity == 0 && final(self).top().transclude
                        == f.transclude
                }),
            },
    {
        if self.frames.len() == 0 {
            return Step::Done;
        }
        let fi = self.frames.len() - 1;
        if !self.frames[fi].transclude {
            let f = self.frames.pop().unwrap();
            let bytes = crate::strutil::vec_suffix(&f.content, f.pos);
            return Step::Out(bytes);
        }
        let clen = self.frames[fi].content.len();
        let sr = scan_exec(&self.frames[fi].content, self.frames[fi].pos, self.frames[fi].parity);
        let bytes = sr.0;
        let stop = sr.1;
        let hit = sr.2;
        if !hit {
            self.frames.pop();
            return Step::Out(bytes);
        }
        let dr = dscan_exec(&self.frames[fi].content, stop + 1);
        let inner = dr.0;
        let dpos = dr.1;
        let dhit = dr.2;
        if !dhit {
            let mut f = self.frames.pop().unwrap();
            f.pos = stop;
            f.parity = 1;
            self.frames.push(f);
            proof {
                assert(self.frames@.drop_last() =~= old(self).frames@.drop_last());
                assert forall|i: int| 0 <= i < self.frames@.len() implies (#[trigger] self.frames@[i]).wf() by {
                    if i < self.frames@.len() - 1 {
                        assert(self.frames@[i] == self.frames@.drop_last()[i]);
                        assert(old(self).frames@[i] == old(self).frames@.drop_last()[i]);
                        assert(old(self).stack()[i].wf());
                    }
                }
            }
            return Step::Out(bytes);
        }
        match utf8_to_string(inner) {
            None => {
                let mut f = self.frames.pop().unwrap();
                f.pos = stop;
                f.parity = 1;
                self.frames.push(f);
                proof {
                    assert(self.frames@.drop_last() =~= old(self).frames@.drop_last());
                    assert forall|i: int| 0 <= i < self.frames@.len() implies (#[trigger] self.frames@[i]).wf() by {
                        if i < self.frames@.len() - 1 {
                            assert(self.frames@[i] == self.frames@.drop_last()[i]);
                            assert(old(self).frames@[i] == old(self).frames@.drop_last()[i]);
                            assert(old(self).stack()[i].wf());
                        }
                    }
                }
                Step::Out(bytes)
            },
            Some(rel) => {
                let mut f = self.frames.pop().unwrap();
                let resolved = resolve_include(rel.as_str(), f.path.as_str());
                f.pos = stop;
                f.parity = 0;
                self.frames.push(f);
                self.pending = Some(
                    PendingInclude { path: resolved.clone(), resume: dpos },
                );
                proof {
                    assert(self.frames@.drop_last() =~= old(self).frames@.drop_last());
                    assert forall|i: int| 0 <= i < self.frames@.len() implies (#[trigger] self.frames@[i]).wf() by {
                        if i < self.frames@.len() - 1 {
                            assert(self.frames@[i] == self.frames@.drop_last()[i]);
                            assert(old(self).frames@[i] == old(self).frames@.drop_last()[i]);
                            assert(old(self).stack()[i].wf());
                        }
                    }
                }
                Step::Include(bytes, resolved)
            },
        }
    }

    /// Answers a pending include whose target exists: reading resumes after
    /// the directive, and the target becomes the new top frame unless the
    /// depth cap is reached, in which case the include is dropped.
    pub fn include_found(&mut self, content: Vec<u8>)
        requires
            old(self).wf(),
            old(self).has_pending(),
        ensures
            final(self).wf(),
            !final(self).has_pending(),
            final(self).stack().drop_last().len() >= old(self).stack().len() - 1,
            ({
                let f = old(self).top();
                let moved_top = Frame {
                    path: f.path,
                    content: f.content,
                    pos: old(self).pending_resume() as usize,
                    parity: 0,
                    transclude: f.transclude,
                };
                if old(self).depth() < MAX_TRANSCLUDE_DEPTH as nat {
                    final(self).stack().len() == old(self).stack().len() + 1 && final(self).stack().drop_last() == old(self).stack().update(
                        old(self).stack().len() - 1,
                        moved_top,
                    ) && final(self).top().path@ == old(self).pending_path() && final(self).top().content@ == content@ && final(self).top().pos == 0 && final(self).top().parity == 0 && final(self).top().transclude == transclude_enabled_spec(
                        old(self).pending_path(),
                    )
                } else {
                    final(self).stack() == old(self).stack().update(
                        old(self).stack().len() - 1,
                        moved_top,
                    )
                }
            }),
    {
        let (ppath, presume): (String, usize) = match &self.pending {
            Some(p) => (p.path.clone(), p.resume),
            None => {
                proof {
                    assert(false);
                }
                (String::new(), 0)
            },
        };
        self.pending = None;
        let mut f = self.frames.pop().unwrap();
        f.pos = presume;
        f.parity = 0;
        self.frames.push(f);
        if self.frames.len() < MAX_TRANSCLUDE_DEPTH {
            let enabled = is_transclude_enabled(ppath.as_str());
            self.frames.push(
                Frame { path: ppath, content, pos: 0, parity: 0, transclude: enabled },
            );
            proof {
                assert(self.frames@.drop_last() =~= old(self).frames@.update(
                    old(self).frames@.len() - 1,
                    self.frames@[old(self).frames@.len() - 1],
                ));
                assert forall|i: int| 0 <= i < self.frames@.len() implies (#[trigger] self.frames@[i]).wf() by {
                    if i < self.frames@.len() - 2 {
                        assert(self.frames@[i] == old(self).frames@[i]);
                        assert(old(self).stack()[i].wf());
                    }
                }
            }
        } else {
            proof {
                assert(self.frames@ =~= old(self).frames@.update(
                    old(self).frames@.len() - 1,
                    self.frames@[old(self).frames@.len() - 1],
                ));
                assert forall|i: int| 0 <= i < self.frames@.len() implies (#[trigger] self.frames@[i]).wf() by {
                    if i < self.frames@.len() - 1 {
                        assert(self.frames@[i] == old(self).frames@[i]);
                        assert(old(self).stack()[i].wf());
                    }
                }
            }
        }
    }

    /// Answers a pending include whose target is missing: the directive is
    /// re-read as literal text starting at its `{`.
    pub fn include_missing(&mut self)
        requires
            old(self).wf(),
            old(self).has_pending(),
        ensures
            final(self).wf(),
            !final(self).has_pending(),
            final(self).stack().len() == old(self).stack().len(),
            final(self).stack().drop_last() == old(self).stack().drop_last(),
            final(self).top().path@ == old(self).top().path@,
            final(self).top().content@ == old(self).top().content@,
            final(self).top().pos == old(self).top().pos,
            final(self).top().parity == 1,
            final(self).top().transclude == old(self).top().transclude,
    {
        self.pending = None;
        let mut f = self.frames.pop().unwrap();
        f.parity = 1;
        self.frames.push(f);
        proof {
            assert(self.frames@.drop_last() =~= old(self).frames@.drop_last());
            assert forall|i: int| 0 <= i < self.frames@.len() implies (#[trigger] self.frames@[i]).wf() by {
                if i < self.frames@.len() - 1 {
                    assert(self.frames@[i] == self.frames@.drop_last()[i]);
                    assert(old(self).frames@[i] == old(self).frames@.drop_last()[i]);
                    assert(old(self).stack()[i].wf());
                }
            }
        }
    }
}

} // verus!

