//! The blocks that were committed, and how they were rendered.

use vstd::prelude::*;

use crate::render::blocks;
use crate::render::blocks::{gap_between, render_block, Element};
use crate::render::highlight::Assets;
use crate::render::model::Block;
use crate::render::out;
use crate::render::out::{crlfs, Canvas, Command, Drawn, RenderOut};
use crate::render::styled::Env;

verus! {

/// How blocks were rendered in one mode: the rows of each, and the commands
/// where they are kept.
pub struct ModeCache {
    pub rows: Vec<u16>,
    pub cached: Vec<Option<Vec<Command<String>>>>,
}

/// How blocks were rendered in one mode.
pub struct ModeView {
    pub rows: Seq<u16>,
    pub cached: Seq<Option<Seq<Command<Seq<char>>>>>,
}

/// The commands that were kept.
pub open spec fn kept(c: Option<Vec<Command<String>>>) -> Option<Seq<Command<Seq<char>>>> {
    match c {
        Some(v) => Some(out::commands_view(v@)),
        None => None,
    }
}

impl View for ModeCache {
    type V = ModeView;

    open spec fn view(&self) -> ModeView {
        ModeView {
            rows: self.rows@,
            cached: Seq::new(self.cached@.len(), |i: int| kept(self.cached@[i])),
        }
    }
}

impl ModeView {
    pub open spec fn empty() -> ModeView {
        ModeView { rows: seq![], cached: seq![] }
    }

    pub open spec fn pushed(self) -> ModeView {
        ModeView { rows: self.rows.push(0), cached: self.cached.push(None) }
    }

    /// Nothing kept.
    pub open spec fn dropped(self) -> ModeView {
        ModeView { cached: Seq::new(self.cached.len(), |i: int| None), ..self }
    }

    pub open spec fn cut(self, n: int) -> ModeView {
        if n <= self.rows.len() {
            ModeView { rows: self.rows.take(n), cached: self.cached.take(n) }
        } else {
            self
        }
    }

    pub open spec fn holds(self, n: nat) -> bool {
        self.rows.len() == n && self.cached.len() == n
    }
}

impl ModeCache {
    pub fn new() -> (r: ModeCache)
        ensures
            r@ == ModeView::empty(),
    {
        let r = ModeCache { rows: Vec::new(), cached: Vec::new() };
        assert(r@.cached =~= seq![]);
        r
    }

    fn push(&mut self)
        ensures
            final(self)@ == old(self)@.pushed(),
    {
        let ghost before = self@;
        self.rows.push(0);
        self.cached.push(None);
        assert(self@.cached =~= before.pushed().cached);
    }

    fn drop_cached(&mut self)
        ensures
            final(self)@ == old(self)@.dropped(),
    {
        let ghost before = self@;
        let n: usize = self.cached.len();
        let mut fresh: Vec<Option<Vec<Command<String>>>> = Vec::new();
        let mut i: usize = 0;
        while i < n
            invariant
                i <= n,
                fresh@.len() == i,
                forall|j: int| 0 <= j < i ==> (#[trigger] fresh@[j]) is None,
            decreases n - i,
        {
            fresh.push(None);
            i = i + 1;
        }
        self.cached = fresh;
        assert(self@.cached =~= before.dropped().cached);
    }

    fn cut(&mut self, n: usize)
        requires
            old(self)@.rows.len() == old(self)@.cached.len(),
        ensures
            final(self)@ == old(self)@.cut(n as int),
    {
        let ghost before = self@;
        self.rows.truncate(n);
        self.cached.truncate(n);
        proof {
            if n <= before.rows.len() {
                assert(self@.rows =~= before.rows.take(n as int));
                assert(self@.cached =~= before.cached.take(n as int));
            } else {
                assert(self@.cached =~= before.cached);
            }
        }
    }
}

/// Blocks and how they were rendered: with thoughts shown, and with thoughts
/// hidden.
pub struct BlockHistory {
    pub blocks: Vec<Block>,
    pub visible: ModeCache,
    pub hidden: ModeCache,
    /// The width for which commands are kept.
    pub cache_width: usize,
    /// How many blocks have been put out.
    pub flushed: usize,
    pub last_block_rows: u16,
    /// The gap before the next block that is put out is left out.
    pub suppress_leading_gap: bool,
}

/// Blocks and how they were rendered.
pub struct HistoryView {
    pub blocks: Seq<Block>,
    pub visible: ModeView,
    pub hidden: ModeView,
    pub cache_width: usize,
    pub flushed: int,
    pub last_block_rows: u16,
    pub suppress: bool,
}

impl View for BlockHistory {
    type V = HistoryView;

    open spec fn view(&self) -> HistoryView {
        HistoryView {
            blocks: self.blocks@,
            visible: self.visible@,
            hidden: self.hidden@,
            cache_width: self.cache_width,
            flushed: self.flushed as int,
            last_block_rows: self.last_block_rows,
            suppress: self.suppress_leading_gap,
        }
    }
}

/// Where the rendering of blocks stands.
pub struct Rendering {
    pub mode: ModeView,
    pub canvas: Canvas,
    pub total: u16,
    /// Rows of the last block, its gap included.
    pub last: u16,
}

impl HistoryView {
    pub open spec fn empty() -> HistoryView {
        HistoryView {
            blocks: seq![],
            visible: ModeView::empty(),
            hidden: ModeView::empty(),
            cache_width: 0,
            flushed: 0,
            last_block_rows: 0,
            suppress: false,
        }
    }

    /// Every block has its rows and what is kept of it, and no more blocks
    /// have been put out than there are.
    pub open spec fn wf(self) -> bool {
        &&& self.visible.holds(self.blocks.len())
        &&& self.hidden.holds(self.blocks.len())
        &&& 0 <= self.flushed <= self.blocks.len()
    }

    pub open spec fn mode(self, show_thinking: bool) -> ModeView {
        if show_thinking {
            self.visible
        } else {
            self.hidden
        }
    }

    pub open spec fn with_mode(self, show_thinking: bool, mode: ModeView) -> HistoryView {
        if show_thinking {
            HistoryView { visible: mode, ..self }
        } else {
            HistoryView { hidden: mode, ..self }
        }
    }

    pub open spec fn pushed(self, b: Block) -> HistoryView {
        HistoryView {
            blocks: self.blocks.push(b),
            visible: self.visible.pushed(),
            hidden: self.hidden.pushed(),
            ..self
        }
    }

    pub open spec fn cleared(self) -> HistoryView {
        HistoryView {
            cache_width: self.cache_width,
            suppress: self.suppress,
            ..HistoryView::empty()
        }
    }

    pub open spec fn cut(self, n: int) -> HistoryView {
        HistoryView {
            blocks: if n <= self.blocks.len() {
                self.blocks.take(n)
            } else {
                self.blocks
            },
            visible: self.visible.cut(n),
            hidden: self.hidden.cut(n),
            flushed: if self.flushed < n {
                self.flushed
            } else {
                n
            },
            ..self
        }
    }

    /// What was kept is of no use for another width.
    pub open spec fn for_width(self, width: usize, use_cache: bool) -> HistoryView {
        if use_cache && width != self.cache_width {
            HistoryView {
                visible: self.visible.dropped(),
                hidden: self.hidden.dropped(),
                cache_width: width,
                ..self
            }
        } else {
            self
        }
    }

    /// Empty lines before block `i`.
    pub open spec fn gap_before(self, i: int) -> u16 {
        if 0 < i < self.blocks.len() {
            blocks::gap(
                blocks::block_kind(self.blocks[i - 1]),
                blocks::block_kind(self.blocks[i]),
            )
        } else {
            0
        }
    }

    /// Puts out block `i`: commands that were kept are put out again, others
    /// are rendered, and kept unless output is positioned.
    pub open spec fn render_step(
        self,
        r: Rendering,
        i: int,
        use_cache: bool,
        width: usize,
        show_thinking: bool,
        env: Env,
    ) -> Rendering {
        let gap = if i == self.flushed && self.suppress {
            0
        } else {
            self.gap_before(i)
        };
        let m = r.canvas.crlfs(gap as int);
        let s = if use_cache {
            match r.mode.cached[i] {
                Some(c) => Rendering { canvas: m.replay(c), ..r },
                None => {
                    let d = blocks::block_drawn(
                        Canvas::blank(),
                        self.blocks[i],
                        width,
                        show_thinking,
                        env,
                    );
                    Rendering {
                        canvas: m.replay(d.canvas.cmds),
                        mode: ModeView {
                            rows: r.mode.rows.update(i, d.rows),
                            cached: r.mode.cached.update(i, Some(d.canvas.cmds)),
                        },
                        ..r
                    }
                },
            }
        } else {
            let d = blocks::block_drawn(m, self.blocks[i], width, show_thinking, env);
            Rendering {
                canvas: d.canvas,
                mode: ModeView { rows: r.mode.rows.update(i, d.rows), ..r.mode },
                ..r
            }
        };
        let rows = out::rows_plus(gap, s.mode.rows[i]);
        Rendering { total: out::rows_plus(r.total, rows), last: rows, ..s }
    }

    /// Puts out the blocks from `flushed` up to `n`.
    pub open spec fn render_up_to(
        self,
        m: Canvas,
        n: int,
        use_cache: bool,
        width: usize,
        show_thinking: bool,
        env: Env,
    ) -> Rendering
        decreases n,
    {
        if n <= self.flushed || n <= 0 {
            Rendering {
                mode: self.mode(show_thinking),
                canvas: m,
                total: 0,
                last: self.last_block_rows,
            }
        } else {
            self.render_step(
                self.render_up_to(m, n - 1, use_cache, width, show_thinking, env),
                n - 1,
                use_cache,
                width,
                show_thinking,
                env,
            )
        }
    }

    /// Puts out all blocks that have not been put out: the history, the
    /// canvas, and the rows.
    #[verifier::opaque]
    pub open spec fn rendered(
        self,
        m: Canvas,
        width: usize,
        show_thinking: bool,
        env: Env,
    ) -> (HistoryView, Drawn) {
        let n = self.blocks.len() as int;
        if self.flushed >= n {
            (self, out::drawn(m))
        } else {
            let use_cache = m.row is None;
            let h = self.for_width(width, use_cache);
            let r = h.render_up_to(m, n, use_cache, width, show_thinking, env);
            (
                HistoryView {
                    last_block_rows: r.last,
                    suppress: false,
                    flushed: n,
                    ..h.with_mode(show_thinking, r.mode)
                },
                Drawn { canvas: r.canvas, rows: r.total },
            )
        }
    }

    /// Rows of the blocks from `i` on, by what was last rendered.
    pub open spec fn rows_from(self, i: int, show_thinking: bool) -> int
        decreases self.blocks.len() - i,
    {
        if i < 0 || i >= self.blocks.len() {
            0
        } else {
            self.gap_before(i) + self.mode(show_thinking).rows[i] + self.rows_from(
                i + 1,
                show_thinking,
            )
        }
    }

    /// The block from which on a redraw of at most `max_lines` rows starts,
    /// looking back from `i`.
    pub open spec fn redraw_from(self, i: int, max_lines: int, show_thinking: bool) -> int
        decreases i,
    {
        if i <= 0 {
            0
        } else if self.rows_from(i - 1, show_thinking) > max_lines {
            i
        } else {
            self.redraw_from(i - 1, max_lines, show_thinking)
        }
    }

    /// Whether `i` is the earliest block from which on the rows are at most
    /// `max_lines`.
    pub open spec fn starts_redraw(self, i: int, max_lines: int, show_thinking: bool) -> bool {
        &&& 0 <= i <= self.blocks.len()
        &&& self.rows_from(i, show_thinking) <= max_lines
        &&& i > 0 ==> self.rows_from(i - 1, show_thinking) > max_lines
    }
}

impl BlockHistory {
    /// Whether every block has its rows and what is kept of it, and no more
    /// blocks have been put out than there are.
    pub fn is_wf(&self) -> (r: bool)
        ensures
            r == self@.wf(),
    {
        let n: usize = self.blocks.len();
        assert(self@.visible.cached.len() == self.visible.cached@.len());
        assert(self@.hidden.cached.len() == self.hidden.cached@.len());
        self.visible.rows.len() == n && self.visible.cached.len() == n && self.hidden.rows.len()
            == n && self.hidden.cached.len() == n && self.flushed <= n
    }

    pub fn new() -> (r: BlockHistory)
        ensures
            r@ == HistoryView::empty(),
            r@.wf(),
    {
        BlockHistory {
            blocks: Vec::new(),
            visible: ModeCache::new(),
            hidden: ModeCache::new(),
            cache_width: 0,
            flushed: 0,
            last_block_rows: 0,
            suppress_leading_gap: false,
        }
    }

    pub fn push(&mut self, block: Block)
        ensures
            final(self)@ == old(self)@.pushed(block),
            old(self)@.wf() ==> final(self)@.wf(),
    {
        self.blocks.push(block);
        self.visible.push();
        self.hidden.push();
    }

    pub fn has_unflushed(&self) -> (r: bool)
        ensures
            r == (self@.flushed < self@.blocks.len()),
    {
        self.flushed < self.blocks.len()
    }

    pub fn clear(&mut self)
        ensures
            final(self)@ == old(self)@.cleared(),
            final(self)@.wf(),
    {
        self.blocks.clear();
        self.visible = ModeCache::new();
        self.hidden = ModeCache::new();
        self.flushed = 0;
        self.last_block_rows = 0;
    }

    pub fn invalidate_caches(&mut self)
        ensures
            final(self)@ == (HistoryView {
                visible: old(self)@.visible.dropped(),
                hidden: old(self)@.hidden.dropped(),
                ..old(self)@
            }),
            old(self)@.wf() ==> final(self)@.wf(),
    {
        self.visible.drop_cached();
        self.hidden.drop_cached();
    }

    /// Empty lines before block `i`.
    pub fn block_gap(&self, i: usize) -> (r: u16)
        requires
            i < self@.blocks.len(),
        ensures
            r == self@.gap_before(i as int),
            r <= 1,
    {
        if i > 0 {
            gap_between(&Element::Block(&self.blocks[i - 1]), &Element::Block(&self.blocks[i]))
        } else {
            0
        }
    }

    /// The earliest block from which on the rows are at most `max_lines`.
    pub fn redraw_start(&self, max_lines: u16, show_thinking: bool) -> (r: usize)
        requires
            self@.wf(),
        ensures
            r == self@.redraw_from(self@.blocks.len() as int, max_lines as int, show_thinking),
            self@.starts_redraw(r as int, max_lines as int, show_thinking),
    {
        let ghost h = self@;
        let mut budget: u32 = max_lines as u32;
        let mut start: usize = self.blocks.len();
        while start > 0
            invariant
                h == self@,
                h.wf(),
                start <= self.blocks@.len(),
                budget <= max_lines,
                budget == max_lines - h.rows_from(start as int, show_thinking),
                h.redraw_from(h.blocks.len() as int, max_lines as int, show_thinking)
                    == h.redraw_from(start as int, max_lines as int, show_thinking),
            decreases start,
        {
            let i: usize = start - 1;
            let rows: u16 = if show_thinking {
                self.visible.rows[i]
            } else {
                self.hidden.rows[i]
            };
            let total: u32 = self.block_gap(i) as u32 + rows as u32;
            if total > budget {
                return start;
            }
            budget = budget - total;
            start = i;
        }
        start
    }

    /// Keeps the first `idx` blocks.
    pub fn truncate(&mut self, idx: usize)
        requires
            old(self)@.wf(),
        ensures
            final(self)@ == old(self)@.cut(idx as int),
            final(self)@.wf(),
    {
        let ghost before = self@;
        self.blocks.truncate(idx);
        self.visible.cut(idx);
        self.hidden.cut(idx);
        if self.flushed > idx {
            self.flushed = idx;
        }
        assert(self@.blocks =~= before.cut(idx as int).blocks);
    }

    /// Puts out the blocks that have not been put out; the result is the
    /// number of rows.
    pub fn render(
        &mut self,
        out: &mut RenderOut,
        assets: &Assets,
        width: usize,
        show_thinking: bool,
        env: &Env,
    ) -> (r: u16)
        requires
            old(self)@.wf(),
        ensures
            (final(self)@, (Drawn { canvas: final(out)@, rows: r })) == old(self)@.rendered(
                old(out)@,
                width,
                show_thinking,
                *env,
            ),
            final(self)@.wf(),
    {
        proof {
            reveal(HistoryView::rendered);
        }
        if !self.has_unflushed() {
            return 0;
        }
        let use_cache = out.row().is_none();
        if use_cache && width != self.cache_width {
            self.invalidate_caches();
            self.cache_width = width;
        }
        let ghost h = self@;
        let ghost m0 = out@;
        let mut mode = ModeCache::new();
        if show_thinking {
            std::mem::swap(&mut mode, &mut self.visible);
        } else {
            std::mem::swap(&mut mode, &mut self.hidden);
        }
        let count: usize = self.blocks.len();
        let mut total: u16 = 0;
        let mut last: u16 = self.last_block_rows;
        let mut i: usize = self.flushed;
        while i < count
            invariant
                self.blocks@ == h.blocks,
                self.flushed == h.flushed,
                self.suppress_leading_gap == h.suppress,
                self.cache_width == h.cache_width,
                show_thinking ==> self.hidden@ == h.hidden,
                !show_thinking ==> self.visible@ == h.visible,
                h.wf(),
                count == h.blocks.len(),
                h.flushed <= i <= count,
                mode@.holds(count as nat),
                (Rendering { mode: mode@, canvas: out@, total, last }) == h.render_up_to(
                    m0,
                    i as int,
                    use_cache,
                    width,
                    show_thinking,
                    *env,
                ),
            decreases count - i,
        {
            let ghost bm = mode@;
            let gap: u16 = if i == self.flushed && self.suppress_leading_gap {
                0
            } else if i > 0 {
                gap_between(
                    &Element::Block(&self.blocks[i - 1]),
                    &Element::Block(&self.blocks[i]),
                )
            } else {
                0
            };
            crlfs(out, gap);
            assert(bm.cached[i as int] == kept(mode.cached@[i as int]));
            if use_cache {
                let mut fresh = false;
                match &mode.cached[i] {
                    Some(c) => {
                        out.replay(c);
                    },
                    None => {
                        fresh = true;
                    },
                }
                if fresh {
                    let mut buf = RenderOut::buffer();
                    let rows: u16 = render_block(
                        &mut buf,
                        assets,
                        &self.blocks[i],
                        width,
                        show_thinking,
                        env,
                    );
                    let cmds = buf.into_commands();
                    out.replay(&cmds);
                    mode.cached.set(i, Some(cmds));
                    mode.rows.set(i, rows);
                    assert(mode@.cached =~= bm.cached.update(
                        i as int,
                        Some(out::commands_view(cmds@)),
                    ));
                }
            } else {
                let rows: u16 = render_block(
                    out,
                    assets,
                    &self.blocks[i],
                    width,
                    show_thinking,
                    env,
                );
                mode.rows.set(i, rows);
                assert(mode@.cached =~= bm.cached);
            }
            let rows: u16 = gap.saturating_add(mode.rows[i]);
            total = total.saturating_add(rows);
            last = rows;
            i = i + 1;
        }
        if show_thinking {
            self.visible = mode;
        } else {
            self.hidden = mode;
        }
        self.last_block_rows = last;
        self.suppress_leading_gap = false;
        self.flushed = count;
        total
    }
}

/// A block that was put out and kept is put out the same way again, whatever
/// has become of the block and of what is around it.
pub proof fn law_kept_blocks_repeat(
    h: HistoryView,
    m: Canvas,
    r: Rendering,
    i: int,
    width: usize,
    show_thinking: bool,
    env: Env,
    later: Env,
    other: Block,
)
    requires
        h.wf(),
        r.mode.holds(h.blocks.len()),
        0 <= i < h.blocks.len(),
        blocks::block_kind(other) == blocks::block_kind(h.blocks[i]),
        m == r.canvas,
    ensures
        ({
            let a = h.render_step(r, i, true, width, show_thinking, env);
            let h2 = HistoryView { blocks: h.blocks.update(i, other), ..h };
            let b = h2.render_step(
                Rendering { canvas: m, total: r.total, ..a },
                i,
                true,
                width,
                show_thinking,
                later,
            );
            b.canvas == a.canvas && b.total == a.total && b.mode == a.mode
        }),
{
}

/// Blocks from a later one on take no more rows.
pub proof fn law_rows_shrink(h: HistoryView, i: int, j: int, show_thinking: bool)
    requires
        h.wf(),
        0 <= i <= j <= h.blocks.len(),
    ensures
        h.rows_from(j, show_thinking) <= h.rows_from(i, show_thinking),
    decreases j - i,
{
    if i < j {
        law_rows_shrink(h, i + 1, j, show_thinking);
    }
}

/// The block at which a redraw starts is the only one that qualifies: from
/// every earlier block on the rows are too many.
pub proof fn law_redraw_start_is_earliest(
    h: HistoryView,
    start: int,
    i: int,
    max_lines: int,
    show_thinking: bool,
)
    requires
        h.wf(),
        h.starts_redraw(start, max_lines, show_thinking),
        0 <= i < start,
    ensures
        h.rows_from(i, show_thinking) > max_lines,
{
    law_rows_shrink(h, i, start - 1, show_thinking);
}

proof fn lemma_crlfs_row(m: Canvas, n: int)
    requires
        m.row is None,
    ensures
        m.crlfs(n).row is None,
    decreases n,
{
    if n > 0 {
        lemma_crlfs_row(m, n - 1);
        reveal(Canvas::crlf);
    }
}

proof fn lemma_scrolls_on(
    h: HistoryView,
    m: Canvas,
    n: int,
    width: usize,
    show_thinking: bool,
    env: Env,
)
    requires
        m.row is None,
    ensures
        h.render_up_to(m, n, true, width, show_thinking, env).canvas.row is None,
    decreases n,
{
    if n > h.flushed && n > 0 {
        lemma_scrolls_on(h, m, n - 1, width, show_thinking, env);
        let c = h.render_up_to(m, n - 1, true, width, show_thinking, env).canvas;
        let gap = if n - 1 == h.flushed && h.suppress {
            0
        } else {
            h.gap_before(n - 1)
        };
        lemma_crlfs_row(c, gap as int);
        reveal(Canvas::replay);
    }
}

proof fn lemma_later_block(
    h: HistoryView,
    b: Block,
    m: Canvas,
    n: int,
    width: usize,
    show_thinking: bool,
    env: Env,
)
    requires
        h.wf(),
        n <= h.blocks.len(),
    ensures
        ({
            let x = h.render_up_to(m, n, true, width, show_thinking, env);
            let y = h.pushed(b).render_up_to(m, n, true, width, show_thinking, env);
            &&& x.mode.holds(h.blocks.len())
            &&& y == (Rendering { mode: x.mode.pushed(), ..x })
        }),
    decreases n,
{
    if n > h.flushed && n > 0 {
        lemma_later_block(h, b, m, n - 1, width, show_thinking, env);
        let i = n - 1;
        let x = h.render_up_to(m, i, true, width, show_thinking, env);
        let y = h.pushed(b).render_up_to(m, i, true, width, show_thinking, env);
        assert(h.pushed(b).blocks[i] == h.blocks[i]);
        assert(h.pushed(b).gap_before(i) == h.gap_before(i));
        assert(y.mode.cached[i] == x.mode.cached[i]);
        let p = h.render_step(x, i, true, width, show_thinking, env);
        let q = h.pushed(b).render_step(y, i, true, width, show_thinking, env);
        assert(q.mode.rows =~= p.mode.pushed().rows);
        assert(q.mode.cached =~= p.mode.pushed().cached);
    }
}

/// The history when its first `n` blocks have been put out.
spec fn put_out(h: HistoryView, r: Rendering, n: int, show_thinking: bool) -> HistoryView {
    HistoryView {
        last_block_rows: r.last,
        suppress: false,
        flushed: n,
        ..h.with_mode(show_thinking, r.mode)
    }
}

proof fn lemma_in_parts(
    h: HistoryView,
    m: Canvas,
    k: int,
    n: int,
    width: usize,
    show_thinking: bool,
    env: Env,
)
    requires
        h.flushed < k <= n,
        0 <= h.flushed,
    ensures
        ({
            let a = h.render_up_to(m, k, true, width, show_thinking, env);
            let b = put_out(h, a, k, show_thinking).render_up_to(
                a.canvas,
                n,
                true,
                width,
                show_thinking,
                env,
            );
            h.render_up_to(m, n, true, width, show_thinking, env) == (Rendering {
                total: out::rows_plus(a.total, b.total),
                ..b
            })
        }),
    decreases n,
{
    if n > k {
        lemma_in_parts(h, m, k, n - 1, width, show_thinking, env);
    }
}

/// Blocks that are put out in two frames look as if they had been put out in
/// one, and take as many rows.
pub proof fn law_frames_do_not_matter(
    h: HistoryView,
    b: Block,
    m: Canvas,
    width: usize,
    show_thinking: bool,
    env: Env,
)
    requires
        h.wf(),
        m.row is None,
    ensures
        ({
            let first = h.rendered(m, width, show_thinking, env);
            let second = first.0.pushed(b).rendered(first.1.canvas, width, show_thinking, env);
            let whole = h.pushed(b).rendered(m, width, show_thinking, env);
            &&& whole.0 == second.0
            &&& whole.1 == (Drawn {
                canvas: second.1.canvas,
                rows: out::rows_plus(first.1.rows, second.1.rows),
            })
        }),
{
    reveal(HistoryView::rendered);
    let n = h.blocks.len() as int;
    if h.flushed < n {
        let w = h.for_width(width, true);
        assert(w.wf());
        assert(h.pushed(b).for_width(width, true) == w.pushed(b)) by {
            assert(w.pushed(b).visible.cached =~= h.pushed(b).for_width(width, true).visible.cached);
            assert(w.pushed(b).hidden.cached =~= h.pushed(b).for_width(width, true).hidden.cached);
        }
        let a = w.render_up_to(m, n, true, width, show_thinking, env);
        lemma_later_block(w, b, m, n, width, show_thinking, env);
        lemma_scrolls_on(w, m, n, width, show_thinking, env);
        lemma_in_parts(w.pushed(b), m, n, n + 1, width, show_thinking, env);
        let y = w.pushed(b).render_up_to(m, n, true, width, show_thinking, env);
        assert(put_out(w.pushed(b), y, n, show_thinking) == put_out(
            w,
            a,
            n,
            show_thinking,
        ).pushed(b));
    }
}

} // verus!
