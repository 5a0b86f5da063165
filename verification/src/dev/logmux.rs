//! Multi-source line-prefixed coloured log stream: the per-slug line
//! buffering and the prefix each line gets.

use vstd::prelude::*;

use crate::ansi::{paint, painted, Hue};
use crate::smap::StrMap;
use crate::text::{push_str, string_of};

verus! {

/// One chunk of container output for a slug.
#[derive(Clone, Debug)]
pub struct LogLine {
    pub slug: String,
    pub bytes: Vec<u8>,
}

/// The colour a slug's prefix is painted in.
#[derive(Clone, Copy, Debug, PartialEq, Eq, Structural)]
pub enum SlugColor {
    Cyan,
    Magenta,
    Yellow,
    Green,
    Blue,
    BrightRed,
}

/// The hash of a slug's bytes: `h = h * 31 + b`, wrapping at 2^32.
pub open spec fn slug_hash(bytes: Seq<u8>) -> u32
    decreases bytes.len(),
{
    if bytes.len() == 0 {
        0
    } else {
        vstd::wrapping::u32_specs::wrapping_add(
            vstd::wrapping::u32_specs::wrapping_mul(slug_hash(bytes.drop_last()), 31),
            bytes.last() as u32,
        )
    }
}

/// The palette, cycled by hash.
pub open spec fn palette(i: int) -> SlugColor {
    if i == 0 {
        SlugColor::Cyan
    } else if i == 1 {
        SlugColor::Magenta
    } else if i == 2 {
        SlugColor::Yellow
    } else if i == 3 {
        SlugColor::Green
    } else if i == 4 {
        SlugColor::Blue
    } else {
        SlugColor::BrightRed
    }
}

/// The terminal colour of a slug colour.
pub open spec fn hue_of(c: SlugColor) -> Hue {
    match c {
        SlugColor::Cyan => Hue::Cyan,
        SlugColor::Magenta => Hue::Magenta,
        SlugColor::Yellow => Hue::Yellow,
        SlugColor::Green => Hue::Green,
        SlugColor::Blue => Hue::Blue,
        SlugColor::BrightRed => Hue::BrightRed,
    }
}

/// Stable colour per slug: its hash modulo the six-colour palette.
pub fn slug_color(slug: &str) -> (c: SlugColor)
    ensures
        c == palette(slug_hash(vstd::utf8::encode_utf8(slug@)) as int % 6),
{
    let bytes = slug.as_bytes();
    let mut h: u32 = 0;
    let mut i: usize = 0;
    while i < bytes.len()
        invariant
            i <= bytes@.len(),
            bytes@ == vstd::utf8::encode_utf8(slug@),
            h == slug_hash(bytes@.subrange(0, i as int)),
        decreases bytes@.len() - i,
    {
        proof {
            assert(bytes@.subrange(0, i + 1).drop_last() =~= bytes@.subrange(0, i as int));
        }
        h = h.wrapping_mul(31).wrapping_add(bytes[i] as u32);
        i = i + 1;
    }
    proof {
        assert(bytes@.subrange(0, bytes@.len() as int) =~= bytes@);
    }
    let k = h % 6;
    if k == 0 {
        SlugColor::Cyan
    } else if k == 1 {
        SlugColor::Magenta
    } else if k == 2 {
        SlugColor::Yellow
    } else if k == 3 {
        SlugColor::Green
    } else if k == 4 {
        SlugColor::Blue
    } else {
        SlugColor::BrightRed
    }
}

/// `n` spaces.
pub open spec fn spaces(n: int) -> Seq<char> {
    Seq::new(if n > 0 { n as nat } else { 0 }, |i: int| ' ')
}

/// `[slug]`, the slug left-aligned in a column `width` characters wide.
pub open spec fn prefix_text(slug: Seq<char>, width: int) -> Seq<char> {
    "["@ + slug + spaces(width - slug.len()) + "]"@
}

/// What precedes each line of `slug`: the prefix, painted in the slug's
/// colour when `color`, then a space.
pub open spec fn line_head(slug: Seq<char>, width: int, color: bool) -> Seq<char> {
    (if color {
        painted(prefix_text(slug, width), hue_of(palette(slug_hash(vstd::utf8::encode_utf8(slug)) as int % 6)))
    } else {
        prefix_text(slug, width)
    }) + " "@
}

/// The bytes written for one line.
pub open spec fn line_out(slug: Seq<char>, width: int, color: bool, line: Seq<u8>) -> Seq<u8> {
    vstd::utf8::encode_utf8(line_head(slug, width, color)) + line + seq![10u8]
}

/// The bytes written for a list of lines, in order.
pub open spec fn lines_out(slug: Seq<char>, width: int, color: bool, lines: Seq<Seq<u8>>) -> Seq<u8>
    decreases lines.len(),
{
    if lines.len() == 0 {
        Seq::empty()
    } else {
        lines_out(slug, width, color, lines.drop_last()) + line_out(slug, width, color, lines.last())
    }
}

/// Feeding `data` to a buffer holding `cur`: the lines completed (each
/// without its newline) and what stays buffered.
pub open spec fn feed(cur: Seq<u8>, data: Seq<u8>) -> (Seq<Seq<u8>>, Seq<u8>)
    decreases data.len(),
{
    if data.len() == 0 {
        (Seq::empty(), cur)
    } else {
        let prev = feed(cur, data.drop_last());
        if data.last() == 10u8 {
            (prev.0.push(prev.1), Seq::empty())
        } else {
            (prev.0, prev.1.push(data.last()))
        }
    }
}

/// The number of newline bytes in `data`.
pub open spec fn newline_count(data: Seq<u8>) -> nat
    decreases data.len(),
{
    if data.len() == 0 {
        0
    } else {
        newline_count(data.drop_last()) + if data.last() == 10u8 {
            1nat
        } else {
            0nat
        }
    }
}

/// Lines, each followed by a newline byte.
pub open spec fn terminated(lines: Seq<Seq<u8>>) -> Seq<u8>
    decreases lines.len(),
{
    if lines.len() == 0 {
        Seq::empty()
    } else {
        terminated(lines.drop_last()) + lines.last() + seq![10u8]
    }
}

/// Line buffering loses and invents nothing: each newline fed completes
/// exactly one line (an empty one too), and the completed lines, each
/// followed by its newline, then what stays buffered, are exactly the
/// bytes held before followed by the bytes fed. When nothing buffered held
/// a newline, no completed line and no buffered byte is one.
pub proof fn lemma_feed_keeps_every_line(cur: Seq<u8>, data: Seq<u8>)
    ensures
        feed(cur, data).0.len() == newline_count(data),
        terminated(feed(cur, data).0) + feed(cur, data).1 == cur + data,
        (forall|i: int| 0 <= i < cur.len() ==> cur[i] != 10u8) ==> {
            &&& forall|i: int| 0 <= i < feed(cur, data).1.len() ==> feed(cur, data).1[i] != 10u8
            &&& forall|k: int, i: int|
                0 <= k < feed(cur, data).0.len() && 0 <= i < feed(cur, data).0[k].len() ==> #[trigger] feed(
                    cur,
                    data,
                ).0[k][i] != 10u8
        },
    decreases data.len(),
{
    if data.len() == 0 {
        assert(cur + data =~= cur);
        assert(terminated(Seq::<Seq<u8>>::empty()) + cur =~= cur);
    } else {
        let d = data.drop_last();
        lemma_feed_keeps_every_line(cur, d);
        let prev = feed(cur, d);
        let now = feed(cur, data);
        assert(data =~= d.push(data.last()));
        assert(cur + data =~= (cur + d).push(data.last()));
        if data.last() == 10u8 {
            assert(now.0.drop_last() =~= prev.0);
            assert(terminated(now.0) + now.1 =~= terminated(prev.0) + prev.1 + seq![10u8]);
            if forall|i: int| 0 <= i < cur.len() ==> cur[i] != 10u8 {
                assert forall|k: int, i: int|
                    0 <= k < now.0.len() && 0 <= i < now.0[k].len() implies #[trigger] now.0[k][i] != 10u8 by {
                    if k < prev.0.len() {
                        assert(now.0[k] == prev.0[k]);
                        assert(prev.0[k][i] != 10u8);
                    } else {
                        assert(now.0[k] == prev.1);
                    }
                }
            }
        } else {
            assert(terminated(now.0) + now.1 =~= (terminated(prev.0) + prev.1).push(data.last()));
            if forall|i: int| 0 <= i < cur.len() ==> cur[i] != 10u8 {
                assert forall|i: int| 0 <= i < now.1.len() implies now.1[i] != 10u8 by {
                    if i < prev.1.len() {
                        assert(now.1[i] == prev.1[i]);
                    }
                }
                assert forall|k: int, i: int|
                    0 <= k < now.0.len() && 0 <= i < now.0[k].len() implies #[trigger] now.0[k][i] != 10u8 by {
                    assert(prev.0[k][i] != 10u8);
                }
            }
        }
    }
}

/// Appends `bytes` to `out`.
fn append_bytes(out: &mut Vec<u8>, bytes: &[u8])
    ensures
        final(out)@ == old(out)@ + bytes@,
{
    let mut i: usize = 0;
    while i < bytes.len()
        invariant
            i <= bytes@.len(),
            out@ == old(out)@ + bytes@.subrange(0, i as int),
        decreases bytes@.len() - i,
    {
        out.push(bytes[i]);
        proof {
            assert(bytes@.subrange(0, i + 1) =~= bytes@.subrange(0, i as int).push(bytes@[i as int]));
        }
        i = i + 1;
    }
    proof {
        assert(bytes@.subrange(0, bytes@.len() as int) =~= bytes@);
    }
}

/// Writes `[slug] line\n` (prefix padded to `width`, painted when `color`).
pub fn write_line(slug: &str, width: usize, color: bool, line: &[u8], w: &mut Vec<u8>)
    ensures
        final(w)@ == old(w)@ + line_out(slug@, width as int, color, line@),
{
    let mut pre: Vec<char> = Vec::new();
    pre.push('[');
    push_str(&mut pre, slug);
    let n = crate::text::chars_of(slug).len();
    let mut k: usize = n;
    let ghost before = pre@;
    while k < width
        invariant
            n <= k <= width || (n > width && k == n),
            n == slug@.len(),
            pre@ == before + spaces(k - n),
        decreases width - k,
    {
        pre.push(' ');
        proof {
            assert(spaces(k + 1 - n) =~= spaces(k - n).push(' '));
        }
        k = k + 1;
    }
    pre.push(']');
    proof {
        reveal_strlit("[");
        reveal_strlit("]");
        assert(spaces(k - n) =~= spaces(width - n));
        assert(pre@ =~= prefix_text(slug@, width as int));
    }
    let prefix = string_of(&pre);
    let mut head: Vec<char> = Vec::new();
    if color {
        let c = slug_color(slug);
        let hue = match c {
            SlugColor::Cyan => Hue::Cyan,
            SlugColor::Magenta => Hue::Magenta,
            SlugColor::Yellow => Hue::Yellow,
            SlugColor::Green => Hue::Green,
            SlugColor::Blue => Hue::Blue,
            SlugColor::BrightRed => Hue::BrightRed,
        };
        let p = paint(prefix.as_str(), hue);
        push_str(&mut head, p.as_str());
    } else {
        push_str(&mut head, prefix.as_str());
    }
    head.push(' ');
    proof {
        reveal_strlit(" ");
        assert(head@ =~= line_head(slug@, width as int, color));
    }
    let head_text = string_of(&head);
    append_bytes(w, head_text.as_str().as_bytes());
    append_bytes(w, line);
    w.push(10u8);
    proof {
        assert(w@ =~= old(w)@ + line_out(slug@, width as int, color, line@));
    }
}

/// Per-slug line buffer: container output arrives in chunks that need not
/// end at line boundaries; bytes accumulate per slug and each complete
/// line is written as it appears.
pub struct PerSlug {
    buf: Vec<u8>,
}

impl Default for PerSlug {
    fn default() -> (r: Self)
        ensures
            r.pending() == Seq::<u8>::empty(),
    {
        PerSlug { buf: Vec::new() }
    }
}

impl PerSlug {
    /// The bytes of the unfinished line.
    pub closed spec fn pending(&self) -> Seq<u8> {
        self.buf@
    }

    /// Adds `bytes`; writes every line they complete to `w`.
    pub fn ingest(&mut self, slug: &str, width: usize, color: bool, bytes: &[u8], w: &mut Vec<u8>)
        ensures
            final(self).pending() == feed(old(self).pending(), bytes@).1,
            final(w)@ == old(w)@ + lines_out(
                slug@,
                width as int,
                color,
                feed(old(self).pending(), bytes@).0,
            ),
    {
        let ghost start = self.buf@;
        let ghost w0 = w@;
        let mut i: usize = 0;
        while i < bytes.len()
            invariant
                i <= bytes@.len(),
                self.buf@ == feed(start, bytes@.subrange(0, i as int)).1,
                w@ == w0 + lines_out(slug@, width as int, color, feed(start, bytes@.subrange(0, i as int)).0),
            decreases bytes@.len() - i,
        {
            proof {
                assert(bytes@.subrange(0, i + 1).drop_last() =~= bytes@.subrange(0, i as int));
            }
            let b = bytes[i];
            if b == 10u8 {
                let mut line: Vec<u8> = Vec::new();
                std::mem::swap(&mut line, &mut self.buf);
                write_line(slug, width, color, line.as_slice(), w);
                proof {
                    let f = feed(start, bytes@.subrange(0, i as int));
                    assert(f.0.push(f.1).drop_last() =~= f.0);
                }
            } else {
                self.buf.push(b);
            }
            i = i + 1;
        }
        proof {
            assert(bytes@.subrange(0, bytes@.len() as int) =~= bytes@);
        }
    }

    /// Writes the unfinished line, if any, to `w` and empties the buffer.
    pub fn flush(&mut self, slug: &str, width: usize, color: bool, w: &mut Vec<u8>)
        ensures
            final(self).pending() == Seq::<u8>::empty(),
            final(w)@ == old(w)@ + if old(self).pending().len() == 0 {
                Seq::<u8>::empty()
            } else {
                line_out(slug@, width as int, color, old(self).pending())
            },
    {
        if self.buf.len() > 0 {
            let mut line: Vec<u8> = Vec::new();
                std::mem::swap(&mut line, &mut self.buf);
            write_line(slug, width, color, line.as_slice(), w);
        } else {
            proof {
                assert(w@ =~= w@ + Seq::<u8>::empty());
            }
        }
    }
}

/// The slugs of buffered entries, in order.
pub open spec fn queue_slugs(q: Seq<(Seq<char>, Seq<u8>)>) -> Seq<Seq<char>> {
    q.map_values(|e: (Seq<char>, Seq<u8>)| e.0)
}

/// The unfinished lines of the entries, each written with its slug's
/// prefix, in order; empty buffers write nothing.
pub open spec fn tails_out(q: Seq<(Seq<char>, Seq<u8>)>, width: int, color: bool) -> Seq<u8>
    decreases q.len(),
{
    if q.len() == 0 {
        Seq::empty()
    } else {
        tails_out(q.drop_last(), width, color) + if q.last().1.len() == 0 {
            Seq::<u8>::empty()
        } else {
            line_out(q.last().0, width, color, q.last().1)
        }
    }
}

/// The output multiplexer of a session: one line buffer per slug, all
/// written to one stream with the same prefix width and colouring.
pub struct LogMux {
    width: usize,
    color: bool,
    pending: StrMap<Vec<u8>>,
}

impl LogMux {
    /// The unfinished line buffered for each slug seen so far.
    pub closed spec fn buffered(&self) -> Map<Seq<char>, Seq<u8>> {
        self.pending.as_map().map_values(|v: Vec<u8>| v@)
    }

    /// The prefix width.
    pub closed spec fn column(&self) -> int {
        self.width as int
    }

    /// Whether prefixes are painted.
    pub closed spec fn colored(&self) -> bool {
        self.color
    }

    /// A multiplexer that has seen no output.
    pub fn new(width: usize, color: bool) -> (m: Self)
        ensures
            m.buffered() == Map::<Seq<char>, Seq<u8>>::empty(),
            m.column() == width,
            m.colored() == color,
    {
        let pending: StrMap<Vec<u8>> = StrMap::new();
        let m = LogMux { width, color, pending };
        proof {
            assert(m.buffered() =~= Map::<Seq<char>, Seq<u8>>::empty());
        }
        m
    }

    /// Takes one chunk of a container's output: writes every line it
    /// completes for that slug to `out` and keeps the rest buffered.
    pub fn accept(&mut self, msg: &LogLine, out: &mut Vec<u8>)
        ensures
            ({
                let cur = if old(self).buffered().contains_key(msg.slug@) {
                    old(self).buffered()[msg.slug@]
                } else {
                    Seq::<u8>::empty()
                };
                &&& final(self).buffered() == old(self).buffered().insert(msg.slug@, feed(cur, msg.bytes@).1)
                &&& final(out)@ == old(out)@ + lines_out(
                    msg.slug@,
                    old(self).column(),
                    old(self).colored(),
                    feed(cur, msg.bytes@).0,
                )
            }),
            final(self).column() == old(self).column(),
            final(self).colored() == old(self).colored(),
    {
        let cur: Vec<u8> = match self.pending.get(msg.slug.as_str()) {
            Some(v) => v.clone(),
            None => Vec::new(),
        };
        let mut p = PerSlug { buf: cur };
        p.ingest(msg.slug.as_str(), self.width, self.color, msg.bytes.as_slice(), out);
        let ghost before = self.buffered();
        self.pending.insert(msg.slug.clone(), p.buf);
        proof {
            assert(self.buffered() =~= before.insert(msg.slug@, feed(
                if before.contains_key(msg.slug@) {
                    before[msg.slug@]
                } else {
                    Seq::<u8>::empty()
                },
                msg.bytes@,
            ).1));
        }
    }

    /// Writes every slug's unfinished line, in slug order, once the
    /// stream has ended.
    pub fn finish(self, out: &mut Vec<u8>)
        ensures
            exists|q: Seq<(Seq<char>, Seq<u8>)>|
                #![trigger tails_out(q, self.column(), self.colored())]
                crate::smap::strictly_sorted(queue_slugs(q)) && q.len() == self.buffered().dom().len() && (forall|
                    i: int,
                |
                    0 <= i < q.len() ==> self.buffered().contains_key(#[trigger] q[i].0) && self.buffered()[q[i].0]
                        == q[i].1) && final(out)@ == old(out)@ + tails_out(q, self.column(), self.colored()),
    {
        proof {
            use_type_invariant(&self.pending);
            self.pending.lemma_inv();
        }
        let ghost ks = self.pending.kseq();
        let ghost vs = self.pending.vseq();
        let ghost q = Seq::new(ks.len(), |i: int| (ks[i], vs[i]@));
        let n = self.pending.len();
        let mut i: usize = 0;
        let ghost start = out@;
        while i < n
            invariant
                i <= n,
                n == ks.len(),
                n == vs.len(),
                ks == self.pending.kseq(),
                vs == self.pending.vseq(),
                q == Seq::new(ks.len(), |i: int| (ks[i], vs[i]@)),
                out@ == start + tails_out(q.subrange(0, i as int), self.width as int, self.color),
            decreases n - i,
        {
            let slug = self.pending.key_at(i);
            let buf = self.pending.value_at(i);
            let mut p = PerSlug { buf: buf.clone() };
            p.flush(slug.as_str(), self.width, self.color, out);
            proof {
                assert(q.subrange(0, i + 1).drop_last() =~= q.subrange(0, i as int));
                assert(q.subrange(0, i + 1).last() == q[i as int]);
            }
            i = i + 1;
        }
        proof {
            assert(q.subrange(0, n as int) =~= q);
            assert(queue_slugs(q) =~= ks);
            assert forall|j: int| 0 <= j < q.len() implies self.buffered().contains_key(#[trigger] q[j].0)
                && self.buffered()[q[j].0] == q[j].1 by {
                self.pending.lemma_entry_at(j);
            }
            assert(self.buffered().dom() =~= ks.to_set());
            crate::smap::lemma_sorted_distinct_all(ks);
            ks.unique_seq_to_set();
            assert(q.len() == self.buffered().dom().len());
            assert(crate::smap::strictly_sorted(queue_slugs(q)));
            assert(out@ == start + tails_out(q, self.column(), self.colored()));
        }
    }
}

/// Output does not depend on how the stream was cut into chunks: feeding
/// `a` then `b` completes the same lines, and leaves the same bytes
/// buffered, as feeding `a + b` at once.
pub proof fn lemma_feed_concat(cur: Seq<u8>, a: Seq<u8>, b: Seq<u8>)
    ensures
        feed(cur, a + b).0 == feed(cur, a).0 + feed(feed(cur, a).1, b).0,
        feed(cur, a + b).1 == feed(feed(cur, a).1, b).1,
    decreases b.len(),
{
    if b.len() == 0 {
        assert(a + b =~= a);
        assert(feed(cur, a).0 + Seq::<Seq<u8>>::empty() =~= feed(cur, a).0);
    } else {
        lemma_feed_concat(cur, a, b.drop_last());
        assert((a + b).drop_last() =~= a + b.drop_last());
        let mid = feed(feed(cur, a).1, b.drop_last());
        if b.last() == 10u8 {
            assert(feed(cur, a).0 + mid.0.push(mid.1) =~= (feed(cur, a).0 + mid.0).push(mid.1));
        }
    }
}

/// The bytes written for consecutive lists of lines are the two outputs
/// one after the other.
pub proof fn lemma_lines_out_concat(slug: Seq<char>, width: int, color: bool, l1: Seq<Seq<u8>>, l2: Seq<Seq<u8>>)
    ensures
        lines_out(slug, width, color, l1 + l2) == lines_out(slug, width, color, l1) + lines_out(slug, width, color, l2),
    decreases l2.len(),
{
    if l2.len() == 0 {
        assert(l1 + l2 =~= l1);
    } else {
        lemma_lines_out_concat(slug, width, color, l1, l2.drop_last());
        assert((l1 + l2).drop_last() =~= l1 + l2.drop_last());
    }
}

} // verus!
