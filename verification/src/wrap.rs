//! Screen layout of a [`Line`] as a paragraph widget renders it: greedy word
//! wrapping with an optional trim of leading whitespace, mid-word hard
//! splits, and truncation with a horizontal offset. Each screen row maps
//! back to source columns (display cells) within the source line.

use vstd::prelude::*;
use vstd::string::StrSliceExecFns;
use std::collections::VecDeque;

use crate::style::Alignment;
use crate::text::{Line, Span};
use crate::unicode::{char_is_whitespace, display_width, grapheme_clusters, graphemes, str_width, white_space};

verus! {

// ── Graphemes and symbols ─────────────────────────────────────────────────────

/// The zero-width space, which counts as whitespace.
pub open spec fn zwsp() -> Seq<char> {
    seq!['\u{200B}']
}

/// The non-breaking space, which does not count as whitespace.
pub open spec fn nbsp() -> Seq<char> {
    seq!['\u{A0}']
}

/// Whether a grapheme counts as whitespace for wrapping: the zero-width
/// space, or a cluster of White_Space characters other than the
/// non-breaking space.
pub open spec fn grapheme_is_whitespace(g: Seq<char>) -> bool {
    g == zwsp() || ((forall|i: int| 0 <= i < g.len() ==> white_space(#[trigger] g[i])) && g != nbsp())
}

/// Whether a grapheme counts as whitespace for wrapping.
pub fn is_whitespace(g: &str) -> (b: bool)
    ensures
        b == grapheme_is_whitespace(g@),
{
    let n = g.unicode_len();
    if n == 1 && g.get_char(0) == '\u{200B}' {
        assert(g@ =~= zwsp());
        return true;
    }
    assert(g@ != zwsp());
    let mut i: usize = 0;
    while i < n
        invariant
            n == g@.len(),
            i <= n,
            g@ != zwsp(),
            forall|k: int| 0 <= k < i ==> white_space(#[trigger] g@[k]),
        decreases n - i,
    {
        let c = g.get_char(i);
        if !char_is_whitespace(c) {
            assert(!white_space(g@[i as int]));
            return false;
        }
        i = i + 1;
    }
    if n == 1 && g.get_char(0) == '\u{A0}' {
        assert(g@ =~= nbsp());
        false
    } else {
        assert(g@ != nbsp());
        true
    }
}

/// The grapheme clusters of a line: those of each span in turn.
pub open spec fn line_clusters(spans: Seq<Span>) -> Seq<Seq<char>>
    decreases spans.len(),
{
    if spans.len() == 0 {
        Seq::empty()
    } else {
        line_clusters(spans.drop_last()) + grapheme_clusters(spans.last().content@)
    }
}

/// The characters of each string.
pub open spec fn string_views(v: Seq<String>) -> Seq<Seq<char>> {
    v.map_values(|s: String| s@)
}

/// The grapheme clusters of a line, span by span.
pub fn line_graphemes(line: &Line) -> (gs: Vec<String>)
    ensures
        string_views(gs@) == line_clusters(line.spans@),
{
    let mut out: Vec<String> = Vec::new();
    let mut i: usize = 0;
    while i < line.spans.len()
        invariant
            i <= line.spans@.len(),
            string_views(out@) == line_clusters(line.spans@.take(i as int)),
        decreases line.spans@.len() - i,
    {
        let gs = graphemes(line.spans[i].content.as_str());
        let ghost before = string_views(out@);
        let mut j: usize = 0;
        while j < gs.len()
            invariant
                j <= gs@.len(),
                gs@.len() == grapheme_clusters(line.spans@[i as int].content@).len(),
                forall|k: int| 0 <= k < gs@.len() ==> #[trigger] gs@[k]@ == grapheme_clusters(
                    line.spans@[i as int].content@,
                )[k],
                string_views(out@) == before + grapheme_clusters(line.spans@[i as int].content@).take(
                    j as int,
                ),
            decreases gs@.len() - j,
        {
            let ghost prev = out@;
            let ghost gc = grapheme_clusters(line.spans@[i as int].content@);
            out.push(gs[j].clone());
            assert(out@ == prev.push(gs@[j as int]));
            assert(string_views(out@) =~= string_views(prev).push(gs@[j as int]@));
            assert(gc.take(j + 1) =~= gc.take(j as int).push(gc[j as int]));
            j = j + 1;
        }
        assert(grapheme_clusters(line.spans@[i as int].content@).take(j as int) =~= grapheme_clusters(
            line.spans@[i as int].content@,
        ));
        assert(line.spans@.take(i + 1).drop_last() =~= line.spans@.take(i as int));
        i = i + 1;
    }
    assert(line.spans@.take(i as int) =~= line.spans@);
    out
}

/// One grapheme of a line: its index among the line's graphemes, its
/// display width, whether it counts as whitespace, and its source column
/// (display cells from the start of the line, saturating).
#[derive(Clone, Copy, Debug, PartialEq, Eq, Structural)]
pub struct Sym {
    pub gi: usize,
    pub width: u16,
    pub ws: bool,
    pub src: u16,
}

/// The width of a grapheme, as the layout counts it.
pub open spec fn cluster_width(g: Seq<char>) -> u16 {
    display_width(g) as u16
}

/// The source column just after the given graphemes.
pub open spec fn clusters_end(gs: Seq<Seq<char>>) -> u16
    decreases gs.len(),
{
    if gs.len() == 0 {
        0
    } else {
        clusters_end(gs.drop_last()).saturating_add(cluster_width(gs.last()))
    }
}

/// The symbols of a sequence of graphemes.
pub open spec fn spec_symbols(gs: Seq<Seq<char>>) -> Seq<Sym>
    decreases gs.len(),
{
    if gs.len() == 0 {
        Seq::empty()
    } else {
        spec_symbols(gs.drop_last()).push(
            Sym {
                gi: (gs.len() - 1) as usize,
                width: cluster_width(gs.last()),
                ws: grapheme_is_whitespace(gs.last()),
                src: clusters_end(gs.drop_last()),
            },
        )
    }
}

/// The symbols of a line.
pub open spec fn line_syms(line: Line) -> Seq<Sym> {
    spec_symbols(line_clusters(line.spans@))
}

/// The symbols of a line: each grapheme with its width, whitespace class
/// and source column.
pub fn line_symbols(line: &Line) -> (syms: Vec<Sym>)
    ensures
        syms@ == line_syms(*line),
{
    let gs = line_graphemes(line);
    let ghost views = string_views(gs@);
    let mut out: Vec<Sym> = Vec::new();
    let mut col: u16 = 0;
    let mut i: usize = 0;
    while i < gs.len()
        invariant
            i <= gs@.len(),
            views == string_views(gs@),
            out@ == spec_symbols(views.take(i as int)),
            col == clusters_end(views.take(i as int)),
        decreases gs@.len() - i,
    {
        let g = gs[i].as_str();
        let w = str_width(g) as u16;
        let ws = is_whitespace(g);
        assert(views.take(i + 1).drop_last() =~= views.take(i as int));
        assert(views.take(i + 1).last() == views[i as int]);
        out.push(Sym { gi: i, width: w, ws, src: col });
        col = col.saturating_add(w);
        i = i + 1;
    }
    assert(views.take(i as int) =~= views);
    out
}

// ── Word wrapping ─────────────────────────────────────────────────────────────

/// The sum of the widths of some symbols.
pub open spec fn sum_widths(s: Seq<Sym>) -> int
    decreases s.len(),
{
    if s.len() == 0 {
        0
    } else {
        sum_widths(s.drop_last()) + s.last().width
    }
}

/// The state of the word wrapper between two symbols: the finished rows,
/// the pending line, the pending word and the pending whitespace (with
/// their widths), and whether the previous symbol was not whitespace.
pub ghost struct WrapState {
    pub wrapped: Seq<Seq<Sym>>,
    pub line: Seq<Sym>,
    pub word: Seq<Sym>,
    pub ws: Seq<Sym>,
    pub line_w: int,
    pub word_w: int,
    pub ws_w: int,
    pub prev_nonws: bool,
}

/// The state before the first symbol.
pub open spec fn wrap_init() -> WrapState {
    WrapState {
        wrapped: Seq::empty(),
        line: Seq::empty(),
        word: Seq::empty(),
        ws: Seq::empty(),
        line_w: 0,
        word_w: 0,
        ws_w: 0,
        prev_nonws: false,
    }
}

/// Moves the pending word (and, unless trimming at the start of a line, the
/// pending whitespace) onto the pending line.
pub open spec fn commit_word(st: WrapState, trim: bool) -> WrapState {
    let keep_ws = st.line.len() > 0 || !trim;
    let line = if keep_ws {
        st.line + st.ws
    } else {
        st.line
    };
    let line_w = if keep_ws {
        st.line_w + st.ws_w
    } else {
        st.line_w
    };
    WrapState {
        line: line + st.word,
        line_w: line_w + st.word_w,
        ws: Seq::empty(),
        ws_w: 0,
        word: Seq::empty(),
        word_w: 0,
        ..st
    }
}

/// Drops leading whitespace symbols while they fit into `remaining` cells.
pub open spec fn drain_ws(ws: Seq<Sym>, ws_w: int, remaining: int) -> (Seq<Sym>, int)
    decreases ws.len(),
{
    if ws.len() > 0 && ws[0].width <= remaining {
        drain_ws(ws.drop_first(), ws_w - ws[0].width, remaining - ws[0].width)
    } else {
        (ws, ws_w)
    }
}

/// Appends a symbol to the pending whitespace or the pending word.
pub open spec fn push_sym(st: WrapState, g: Sym) -> WrapState {
    if g.ws {
        WrapState { ws: st.ws.push(g), ws_w: st.ws_w + g.width, prev_nonws: false, ..st }
    } else {
        WrapState { word: st.word.push(g), word_w: st.word_w + g.width, prev_nonws: true, ..st }
    }
}

/// The word wrapper's treatment of one symbol.
pub open spec fn wrap_step(st: WrapState, g: Sym, max: int, trim: bool) -> WrapState {
    if g.width > max {
        st
    } else {
        let w = g.width as int;
        let empty_line = st.line.len() == 0;
        let word_found = st.prev_nonws && g.ws;
        let trimmed_overflow = empty_line && trim && st.word_w + w > max;
        let whitespace_overflow = empty_line && trim && st.ws_w + w > max;
        let untrimmed_overflow = empty_line && !trim && st.word_w + st.ws_w + w > max;
        let s1 = if word_found || trimmed_overflow || whitespace_overflow || untrimmed_overflow {
            commit_word(st, trim)
        } else {
            st
        };
        let line_full = s1.line_w >= max;
        let word_overflow = w > 0 && s1.line_w + s1.ws_w + s1.word_w >= max;
        if line_full || word_overflow {
            let remaining = if s1.line_w >= max {
                0
            } else {
                max - s1.line_w
            };
            let drained = drain_ws(s1.ws, s1.ws_w, remaining);
            let s2 = WrapState {
                wrapped: s1.wrapped.push(s1.line),
                line: Seq::empty(),
                line_w: 0,
                ws: drained.0,
                ws_w: drained.1,
                ..s1
            };
            if g.ws && drained.0.len() == 0 {
                s2
            } else {
                push_sym(s2, g)
            }
        } else {
            push_sym(s1, g)
        }
    }
}

/// The wrapper's state after the first `n` symbols.
pub open spec fn wrap_prefix(syms: Seq<Sym>, n: int, max: int, trim: bool) -> WrapState
    decreases n,
{
    if n <= 0 {
        wrap_init()
    } else {
        wrap_step(wrap_prefix(syms, n - 1, max, trim), syms[n - 1], max, trim)
    }
}

/// The rows once every symbol has been seen: the pending whitespace, word
/// and line are flushed, and there is always at least one row.
pub open spec fn wrap_finish(st: WrapState, trim: bool) -> Seq<Seq<Sym>> {
    let w1 = if st.line.len() == 0 && st.word.len() == 0 && st.ws.len() > 0 && trim {
        st.wrapped.push(Seq::empty())
    } else {
        st.wrapped
    };
    let line1 = if st.line.len() > 0 || !trim {
        st.line + st.ws
    } else {
        st.line
    };
    let line2 = line1 + st.word;
    let w2 = if line2.len() > 0 {
        w1.push(line2)
    } else {
        w1
    };
    if w2.len() == 0 {
        w2.push(Seq::empty())
    } else {
        w2
    }
}

/// The rows into which the word wrapper splits some symbols.
pub open spec fn spec_process(syms: Seq<Sym>, max_width: u16, trim: bool) -> Seq<Seq<Sym>> {
    wrap_finish(wrap_prefix(syms, syms.len() as int, max_width as int, trim), trim)
}

/// Every line occupies at least one row, even an empty one.
pub proof fn lemma_at_least_one_row(syms: Seq<Sym>, max_width: u16, trim: bool)
    ensures
        spec_process(syms, max_width, trim).len() >= 1,
{
}

/// Whether a row begins with a whitespace symbol.
pub open spec fn starts_with_ws(row: Seq<Sym>) -> bool {
    row.len() > 0 && row[0].ws
}

/// With trimming, the wrapper's state never lets whitespace lead a row:
/// the pending word holds no whitespace, and neither the pending line nor
/// a finished row starts with whitespace.
spec fn trimmed_state(st: WrapState) -> bool {
    &&& forall|k: int| 0 <= k < st.word.len() ==> !(#[trigger] st.word[k]).ws
    &&& !starts_with_ws(st.line)
    &&& forall|i: int| 0 <= i < st.wrapped.len() ==> !starts_with_ws(#[trigger] st.wrapped[i])
}

proof fn lemma_commit_trimmed(st: WrapState)
    requires
        trimmed_state(st),
    ensures
        trimmed_state(commit_word(st, true)),
{
    let c = commit_word(st, true);
    if st.line.len() > 0 {
        assert(c.line[0] == st.line[0]);
    } else if st.word.len() > 0 {
        assert(c.line == st.line + st.word);
        assert(c.line[0] == st.word[0]);
    }
}

proof fn lemma_push_trimmed(st: WrapState, g: Sym)
    requires
        trimmed_state(st),
    ensures
        trimmed_state(push_sym(st, g)),
{
    let p = push_sym(st, g);
    assert forall|k: int| 0 <= k < p.word.len() implies !(#[trigger] p.word[k]).ws by {
        if !g.ws && k == st.word.len() {
            assert(p.word[k] == g);
        } else {
            assert(p.word[k] == st.word[k]);
        }
    }
}

proof fn lemma_step_trimmed(st: WrapState, g: Sym, max: int)
    requires
        trimmed_state(st),
    ensures
        trimmed_state(wrap_step(st, g, max, true)),
{
    if g.width <= max {
        let w = g.width as int;
        let empty_line = st.line.len() == 0;
        let word_found = st.prev_nonws && g.ws;
        let trimmed_overflow = empty_line && st.word_w + w > max;
        let whitespace_overflow = empty_line && st.ws_w + w > max;
        let s1 = if word_found || trimmed_overflow || whitespace_overflow {
            commit_word(st, true)
        } else {
            st
        };
        lemma_commit_trimmed(st);
        assert(trimmed_state(s1));
        let line_full = s1.line_w >= max;
        let word_overflow = w > 0 && s1.line_w + s1.ws_w + s1.word_w >= max;
        if line_full || word_overflow {
            let remaining = if s1.line_w >= max {
                0
            } else {
                max - s1.line_w
            };
            let drained = drain_ws(s1.ws, s1.ws_w, remaining);
            let s2 = WrapState {
                wrapped: s1.wrapped.push(s1.line),
                line: Seq::empty(),
                line_w: 0,
                ws: drained.0,
                ws_w: drained.1,
                ..s1
            };
            assert forall|i: int| 0 <= i < s2.wrapped.len() implies !starts_with_ws(#[trigger] s2.wrapped[i]) by {
                if i < s1.wrapped.len() {
                    assert(s2.wrapped[i] == s1.wrapped[i]);
                }
            }
            assert(trimmed_state(s2));
            lemma_push_trimmed(s2, g);
            assert(wrap_step(st, g, max, true) == (if g.ws && drained.0.len() == 0 {
                s2
            } else {
                push_sym(s2, g)
            }));
        } else {
            lemma_push_trimmed(s1, g);
        }
    }
}

proof fn lemma_prefix_trimmed(syms: Seq<Sym>, n: int, max: int)
    ensures
        trimmed_state(wrap_prefix(syms, n, max, true)),
    decreases n,
{
    if n > 0 {
        lemma_prefix_trimmed(syms, n - 1, max);
        lemma_step_trimmed(wrap_prefix(syms, n - 1, max, true), syms[n - 1], max);
    }
}

/// With trimming, no wrapped row starts with whitespace.
pub proof fn lemma_trimmed_rows_start_with_text(syms: Seq<Sym>, max_width: u16)
    ensures
        forall|i: int|
            0 <= i < spec_process(syms, max_width, true).len() ==> !starts_with_ws(
                #[trigger] spec_process(syms, max_width, true)[i],
            ),
{
    let st = wrap_prefix(syms, syms.len() as int, max_width as int, true);
    lemma_prefix_trimmed(syms, syms.len() as int, max_width as int);
    let w1 = if st.line.len() == 0 && st.word.len() == 0 && st.ws.len() > 0 {
        st.wrapped.push(Seq::empty())
    } else {
        st.wrapped
    };
    let line1 = if st.line.len() > 0 {
        st.line + st.ws
    } else {
        st.line
    };
    let line2 = line1 + st.word;
    assert(!starts_with_ws(line2)) by {
        if st.line.len() > 0 {
            assert(line2[0] == st.line[0]);
        } else if st.word.len() > 0 {
            assert(line2 == st.word);
        }
    }
    assert forall|i: int| 0 <= i < w1.len() implies !starts_with_ws(#[trigger] w1[i]) by {
        if i < st.wrapped.len() {
            assert(w1[i] == st.wrapped[i]);
        }
    }
    let w2 = if line2.len() > 0 {
        w1.push(line2)
    } else {
        w1
    };
    assert forall|i: int| 0 <= i < w2.len() implies !starts_with_ws(#[trigger] w2[i]) by {
        if i < w1.len() {
            assert(w2[i] == w1[i]);
        }
    }
    let rows = spec_process(syms, max_width, true);
    assert(rows == wrap_finish(st, true));
    assert forall|i: int| 0 <= i < rows.len() implies !starts_with_ws(#[trigger] rows[i]) by {
        if w2.len() > 0 {
            assert(rows == w2);
        }
    }
}

/// The symbols of some rows, row after row.
pub open spec fn rows_syms(rows: Seq<Seq<Sym>>) -> Seq<Sym>
    decreases rows.len(),
{
    if rows.len() == 0 {
        Seq::empty()
    } else {
        rows_syms(rows.drop_last()) + rows.last()
    }
}

/// The symbols that are not whitespace, in order.
pub open spec fn visible(s: Seq<Sym>) -> Seq<Sym>
    decreases s.len(),
{
    if s.len() == 0 {
        Seq::empty()
    } else if s.last().ws {
        visible(s.drop_last())
    } else {
        visible(s.drop_last()).push(s.last())
    }
}

/// The symbols that are not whitespace and fit in `max` cells, in order.
pub open spec fn kept(s: Seq<Sym>, max: int) -> Seq<Sym>
    decreases s.len(),
{
    if s.len() == 0 {
        Seq::empty()
    } else if s.last().ws || s.last().width > max {
        kept(s.drop_last(), max)
    } else {
        kept(s.drop_last(), max).push(s.last())
    }
}

proof fn lemma_visible_concat(a: Seq<Sym>, b: Seq<Sym>)
    ensures
        visible(a + b) == visible(a) + visible(b),
    decreases b.len(),
{
    if b.len() == 0 {
        assert(a + b =~= a);
        assert(visible(a) + visible(b) =~= visible(a));
    } else {
        lemma_visible_concat(a, b.drop_last());
        assert((a + b).drop_last() =~= a + b.drop_last());
        assert((a + b).last() == b.last());
        if !b.last().ws {
            assert(visible(a) + visible(b.drop_last()).push(b.last()) =~= (visible(a) + visible(b.drop_last())).push(
                b.last(),
            ));
        }
    }
}

proof fn lemma_visible_all_ws(s: Seq<Sym>)
    requires
        forall|k: int| 0 <= k < s.len() ==> (#[trigger] s[k]).ws,
    ensures
        visible(s) == Seq::<Sym>::empty(),
    decreases s.len(),
{
    if s.len() > 0 {
        lemma_visible_all_ws(s.drop_last());
    }
}

proof fn lemma_drain_ws_all_ws(ws: Seq<Sym>, ws_w: int, remaining: int)
    requires
        forall|k: int| 0 <= k < ws.len() ==> (#[trigger] ws[k]).ws,
    ensures
        forall|k: int| 0 <= k < drain_ws(ws, ws_w, remaining).0.len() ==> (#[trigger] drain_ws(ws, ws_w, remaining).0[k]).ws,
    decreases ws.len(),
{
    if ws.len() > 0 && ws[0].width <= remaining {
        let rest = ws.drop_first();
        assert forall|k: int| 0 <= k < rest.len() implies (#[trigger] rest[k]).ws by {
            assert(rest[k] == ws[k + 1]);
        }
        lemma_drain_ws_all_ws(rest, ws_w - ws[0].width, remaining - ws[0].width);
        assert(drain_ws(ws, ws_w, remaining) == drain_ws(rest, ws_w - ws[0].width, remaining - ws[0].width));
    } else {
        assert(drain_ws(ws, ws_w, remaining) == (ws, ws_w));
    }
}

/// What the wrapper has produced so far, keeping only visible symbols:
/// the finished rows, then the pending line and word (the pending
/// whitespace is all whitespace).
spec fn shown(st: WrapState) -> Seq<Sym> {
    visible(rows_syms(st.wrapped)) + visible(st.line) + visible(st.word)
}

spec fn ws_only(st: WrapState) -> bool {
    forall|k: int| 0 <= k < st.ws.len() ==> (#[trigger] st.ws[k]).ws
}

proof fn lemma_commit_shown(st: WrapState, trim: bool)
    requires
        ws_only(st),
    ensures
        shown(commit_word(st, trim)) == shown(st),
        ws_only(commit_word(st, trim)),
{
    let c = commit_word(st, trim);
    lemma_visible_all_ws(st.ws);
    lemma_visible_concat(st.line, st.ws);
    lemma_visible_concat(st.line + st.ws, st.word);
    lemma_visible_concat(st.line, st.word);
    assert(visible(st.line + st.ws) =~= visible(st.line));
    assert(visible(c.word) =~= Seq::<Sym>::empty());
    assert(shown(c) =~= shown(st));
}

proof fn lemma_push_shown(st: WrapState, g: Sym)
    requires
        ws_only(st),
    ensures
        ws_only(push_sym(st, g)),
        shown(push_sym(st, g)) == if g.ws {
            shown(st)
        } else {
            shown(st).push(g)
        },
{
    let p = push_sym(st, g);
    if g.ws {
        assert forall|k: int| 0 <= k < p.ws.len() implies (#[trigger] p.ws[k]).ws by {
            if k < st.ws.len() {
                assert(p.ws[k] == st.ws[k]);
            }
        }
    } else {
        assert(p.word.drop_last() =~= st.word);
        assert(shown(p) =~= shown(st).push(g));
    }
}

proof fn lemma_step_shown(st: WrapState, g: Sym, max: int, trim: bool)
    requires
        ws_only(st),
    ensures
        ws_only(wrap_step(st, g, max, trim)),
        shown(wrap_step(st, g, max, trim)) == if g.ws || g.width > max {
            shown(st)
        } else {
            shown(st).push(g)
        },
{
    if g.width <= max {
        let w = g.width as int;
        let empty_line = st.line.len() == 0;
        let word_found = st.prev_nonws && g.ws;
        let trimmed_overflow = empty_line && trim && st.word_w + w > max;
        let whitespace_overflow = empty_line && trim && st.ws_w + w > max;
        let untrimmed_overflow = empty_line && !trim && st.word_w + st.ws_w + w > max;
        let s1 = if word_found || trimmed_overflow || whitespace_overflow || untrimmed_overflow {
            commit_word(st, trim)
        } else {
            st
        };
        lemma_commit_shown(st, trim);
        let line_full = s1.line_w >= max;
        let word_overflow = w > 0 && s1.line_w + s1.ws_w + s1.word_w >= max;
        if line_full || word_overflow {
            let remaining = if s1.line_w >= max {
                0
            } else {
                max - s1.line_w
            };
            let drained = drain_ws(s1.ws, s1.ws_w, remaining);
            let s2 = WrapState {
                wrapped: s1.wrapped.push(s1.line),
                line: Seq::empty(),
                line_w: 0,
                ws: drained.0,
                ws_w: drained.1,
                ..s1
            };
            lemma_drain_ws_all_ws(s1.ws, s1.ws_w, remaining);
            assert(s2.wrapped.drop_last() =~= s1.wrapped);
            assert(rows_syms(s2.wrapped) == rows_syms(s1.wrapped) + s1.line);
            lemma_visible_concat(rows_syms(s1.wrapped), s1.line);
            assert(visible(s2.line) =~= Seq::<Sym>::empty());
            assert(shown(s2) =~= shown(s1));
            assert(ws_only(s2));
            lemma_push_shown(s2, g);
        } else {
            lemma_push_shown(s1, g);
        }
    }
}

proof fn lemma_prefix_shown(syms: Seq<Sym>, n: int, max: int, trim: bool)
    requires
        0 <= n <= syms.len(),
    ensures
        ws_only(wrap_prefix(syms, n, max, trim)),
        shown(wrap_prefix(syms, n, max, trim)) == kept(syms.take(n), max),
    decreases n,
{
    if n == 0 {
        assert(syms.take(0) =~= Seq::<Sym>::empty());
        assert(shown(wrap_init()) =~= Seq::<Sym>::empty());
    } else {
        lemma_prefix_shown(syms, n - 1, max, trim);
        lemma_step_shown(wrap_prefix(syms, n - 1, max, trim), syms[n - 1], max, trim);
        assert(syms.take(n).drop_last() =~= syms.take(n - 1));
        assert(syms.take(n).last() == syms[n - 1]);
    }
}

/// Wrapping drops only whitespace and symbols wider than the area: the
/// visible symbols of the rows, row after row, are the line's visible
/// symbols that fit, in order.
pub proof fn lemma_wrapping_keeps_visible_symbols(syms: Seq<Sym>, max_width: u16, trim: bool)
    ensures
        visible(rows_syms(spec_process(syms, max_width, trim))) == kept(syms, max_width as int),
{
    let max = max_width as int;
    let st = wrap_prefix(syms, syms.len() as int, max, trim);
    lemma_prefix_shown(syms, syms.len() as int, max, trim);
    assert(syms.take(syms.len() as int) =~= syms);
    let w1 = if st.line.len() == 0 && st.word.len() == 0 && st.ws.len() > 0 && trim {
        st.wrapped.push(Seq::empty())
    } else {
        st.wrapped
    };
    assert(rows_syms(w1) == rows_syms(st.wrapped)) by {
        if w1 != st.wrapped {
            assert(w1.drop_last() =~= st.wrapped);
            assert(rows_syms(st.wrapped) + Seq::<Sym>::empty() =~= rows_syms(st.wrapped));
        }
    }
    let line1 = if st.line.len() > 0 || !trim {
        st.line + st.ws
    } else {
        st.line
    };
    let line2 = line1 + st.word;
    lemma_visible_all_ws(st.ws);
    lemma_visible_concat(st.line, st.ws);
    lemma_visible_concat(line1, st.word);
    assert(visible(line1) =~= visible(st.line));
    let w2 = if line2.len() > 0 {
        w1.push(line2)
    } else {
        w1
    };
    assert(visible(rows_syms(w2)) == visible(rows_syms(w1)) + visible(line2)) by {
        if line2.len() > 0 {
            assert(w2.drop_last() =~= w1);
            lemma_visible_concat(rows_syms(w1), line2);
        } else {
            assert(line2 =~= Seq::<Sym>::empty());
            assert(visible(rows_syms(w1)) + visible(line2) =~= visible(rows_syms(w1)));
        }
    }
    let rows = spec_process(syms, max_width, trim);
    assert(rows == wrap_finish(st, trim));
    if w2.len() == 0 {
        let one: Seq<Seq<Sym>> = seq![Seq::empty()];
        assert(rows == one);
        assert(one.drop_last() =~= Seq::<Seq<Sym>>::empty());
        assert(rows_syms(Seq::<Seq<Sym>>::empty()) == Seq::<Sym>::empty());
        assert(one.last() == Seq::<Sym>::empty());
        assert(rows_syms(one) == rows_syms(Seq::<Seq<Sym>>::empty()) + Seq::<Sym>::empty());
        assert(rows_syms(one) =~= Seq::<Sym>::empty());
        assert(visible(rows_syms(w2)) =~= Seq::<Sym>::empty());
    }
    assert(visible(rows_syms(w2)) =~= shown(st));
}

/// The contents of each row.
pub open spec fn rows_view(rows: Seq<Vec<Sym>>) -> Seq<Seq<Sym>> {
    rows.map_values(|r: Vec<Sym>| r@)
}

proof fn lemma_sum_widths_push(s: Seq<Sym>, g: Sym)
    ensures
        sum_widths(s.push(g)) == sum_widths(s) + g.width,
{
    assert(s.push(g).drop_last() =~= s);
}

proof fn lemma_sum_widths_concat(a: Seq<Sym>, b: Seq<Sym>)
    ensures
        sum_widths(a + b) == sum_widths(a) + sum_widths(b),
    decreases b.len(),
{
    if b.len() == 0 {
        assert(a + b =~= a);
    } else {
        lemma_sum_widths_concat(a, b.drop_last());
        assert((a + b).drop_last() =~= a + b.drop_last());
    }
}

proof fn lemma_sum_widths_first(s: Seq<Sym>)
    requires
        s.len() > 0,
    ensures
        sum_widths(s) == s[0].width + sum_widths(s.drop_first()),
{
    lemma_sum_widths_concat(seq![s[0]], s.drop_first());
    assert(seq![s[0]] + s.drop_first() =~= s);
    assert(seq![s[0]].drop_last() =~= Seq::<Sym>::empty());
    assert(sum_widths(Seq::<Sym>::empty()) == 0);
    assert(sum_widths(seq![s[0]]) == sum_widths(seq![s[0]].drop_last()) + s[0].width);
}

proof fn lemma_sum_widths_nonneg(s: Seq<Sym>)
    ensures
        sum_widths(s) >= 0,
    decreases s.len(),
{
    if s.len() > 0 {
        lemma_sum_widths_nonneg(s.drop_last());
    }
}

/// Moves every symbol of `src` to the end of `dst`.
fn move_all(dst: &mut Vec<Sym>, src: &mut VecDeque<Sym>)
    ensures
        final(dst)@ == old(dst)@ + old(src)@,
        final(src)@.len() == 0,
{
    let ghost d0 = dst@;
    let ghost s0 = src@;
    while src.len() > 0
        invariant
            d0 + s0 == dst@ + src@,
        decreases src@.len(),
    {
        let g = src.pop_front().unwrap();
        assert(d0 + s0 =~= dst@.push(g) + src@);
        dst.push(g);
    }
    assert(dst@ + src@ =~= dst@);
}

/// The word wrapper's working state.
struct Wrapper {
    wrapped: Vec<Vec<Sym>>,
    line: Vec<Sym>,
    word: Vec<Sym>,
    ws: VecDeque<Sym>,
    line_w: u128,
    word_w: u128,
    ws_w: u128,
    prev_nonws: bool,
}

impl Wrapper {
    spec fn view(&self) -> WrapState {
        WrapState {
            wrapped: rows_view(self.wrapped@),
            line: self.line@,
            word: self.word@,
            ws: self.ws@,
            line_w: self.line_w as int,
            word_w: self.word_w as int,
            ws_w: self.ws_w as int,
            prev_nonws: self.prev_nonws,
        }
    }

    spec fn total(&self) -> int {
        self.line_w + self.word_w + self.ws_w
    }

    spec fn inv(&self) -> bool {
        &&& self.line_w == sum_widths(self.line@)
        &&& self.word_w == sum_widths(self.word@)
        &&& self.ws_w == sum_widths(self.ws@)
    }

    fn new() -> (w: Wrapper)
        ensures
            w.view() == wrap_init(),
            w.inv(),
            w.total() == 0,
    {
        let w = Wrapper {
            wrapped: Vec::new(),
            line: Vec::new(),
            word: Vec::new(),
            ws: VecDeque::new(),
            line_w: 0,
            word_w: 0,
            ws_w: 0,
            prev_nonws: false,
        };
        assert(rows_view(w.wrapped@) =~= Seq::<Seq<Sym>>::empty());
        assert(w.view() =~= wrap_init());
        w
    }

    fn commit(&mut self, trim: bool)
        requires
            old(self).inv(),
            old(self).total() < 0x1_0000_0000_0000_0000_0000_0000_0000_0000,
        ensures
            final(self).view() == commit_word(old(self).view(), trim),
            final(self).inv(),
            final(self).total() <= old(self).total(),
    {
        if self.line.len() > 0 || !trim {
            proof {
                lemma_sum_widths_concat(self.line@, self.ws@);
            }
            move_all(&mut self.line, &mut self.ws);
            self.line_w = self.line_w + self.ws_w;
        }
        self.ws.clear();
        proof {
            lemma_sum_widths_concat(self.line@, self.word@);
        }
        self.line.append(&mut self.word);
        self.line_w = self.line_w + self.word_w;
        self.ws_w = 0;
        self.word_w = 0;
        assert(self.ws@ =~= Seq::<Sym>::empty());
        assert(self.word@ =~= Seq::<Sym>::empty());
        assert(self.view() =~= commit_word(old(self).view(), trim));
    }

    fn add(&mut self, g: Sym)
        requires
            old(self).inv(),
            old(self).total() + g.width < 0x1_0000_0000_0000_0000_0000_0000_0000_0000,
        ensures
            final(self).view() == push_sym(old(self).view(), g),
            final(self).inv(),
            final(self).total() == old(self).total() + g.width,
    {
        if g.ws {
            proof {
                lemma_sum_widths_push(self.ws@, g);
            }
            self.ws_w = self.ws_w + g.width as u128;
            self.ws.push_back(g);
        } else {
            proof {
                lemma_sum_widths_push(self.word@, g);
            }
            self.word_w = self.word_w + g.width as u128;
            self.word.push(g);
        }
        self.prev_nonws = !g.ws;
    }

    /// Finishes the pending line and drops leading whitespace that fits
    /// into the rest of it.
    fn break_line(&mut self, mw: u128)
        requires
            old(self).inv(),
        ensures
            final(self).view() == ({
                let s1 = old(self).view();
                let max = mw as int;
                let remaining = if s1.line_w >= max {
                    0
                } else {
                    max - s1.line_w
                };
                let drained = drain_ws(s1.ws, s1.ws_w, remaining);
                WrapState {
                    wrapped: s1.wrapped.push(s1.line),
                    line: Seq::empty(),
                    line_w: 0,
                    ws: drained.0,
                    ws_w: drained.1,
                    ..s1
                }
            }),
            final(self).inv(),
            final(self).total() <= old(self).total(),
    {
        let mut remaining: u128 = if self.line_w >= mw {
            0
        } else {
            mw - self.line_w
        };
        let ghost s1 = self.view();
        let ghost rem0 = remaining as int;
        let ghost old_wrapped = rows_view(self.wrapped@);
        let ghost old_line = self.line@;
        let mut line: Vec<Sym> = Vec::new();
        std::mem::swap(&mut line, &mut self.line);
        self.wrapped.push(line);
        assert(rows_view(self.wrapped@) =~= old_wrapped.push(old_line));
        self.line_w = 0;
        while self.ws.len() > 0
            invariant
                drain_ws(s1.ws, s1.ws_w, rem0) == drain_ws(self.ws@, self.ws_w as int, remaining as int),
                self.ws_w == sum_widths(self.ws@),
                self.ws_w <= s1.ws_w,
                rows_view(self.wrapped@) == s1.wrapped.push(s1.line),
                self.line@ == Seq::<Sym>::empty(),
                self.line_w == 0,
                self.word@ == s1.word,
                self.word_w == s1.word_w,
                self.prev_nonws == s1.prev_nonws,
            ensures
                drain_ws(s1.ws, s1.ws_w, rem0) == (self.ws@, self.ws_w as int),
                self.ws_w == sum_widths(self.ws@),
                self.ws_w <= s1.ws_w,
                rows_view(self.wrapped@) == s1.wrapped.push(s1.line),
                self.line@ == Seq::<Sym>::empty(),
                self.line_w == 0,
                self.word@ == s1.word,
                self.word_w == s1.word_w,
                self.prev_nonws == s1.prev_nonws,
            decreases self.ws@.len(),
        {
            let width = self.ws[0].width as u128;
            if width > remaining {
                break;
            }
            proof {
                lemma_sum_widths_first(self.ws@);
                lemma_sum_widths_nonneg(self.ws@.drop_first());
            }
            self.ws_w = self.ws_w - width;
            remaining = remaining - width;
            let _ = self.ws.pop_front();
        }
        assert(self.view() =~= ({
            let drained = drain_ws(s1.ws, s1.ws_w, rem0);
            WrapState {
                wrapped: s1.wrapped.push(s1.line),
                line: Seq::empty(),
                line_w: 0,
                ws: drained.0,
                ws_w: drained.1,
                ..s1
            }
        }));
    }

    /// Treats one symbol.
    fn step(&mut self, g: Sym, mw: u128, trim: bool)
        requires
            old(self).inv(),
            old(self).total() + 65536 < 0x1_0000_0000_0000_0000_0000_0000_0000_0000,
            mw <= 65535,
        ensures
            final(self).view() == wrap_step(old(self).view(), g, mw as int, trim),
            final(self).inv(),
            final(self).total() <= old(self).total() + 65536,
    {
        let is_ws = g.ws;
        let symbol_width = g.width as u128;
        if symbol_width > mw {
            return;
        }
        let word_found = self.prev_nonws && is_ws;
        let empty_line = self.line.len() == 0;
        let trimmed_overflow = empty_line && trim && self.word_w + symbol_width > mw;
        let whitespace_overflow = empty_line && trim && self.ws_w + symbol_width > mw;
        let untrimmed_overflow = empty_line && !trim && self.word_w + self.ws_w + symbol_width > mw;
        if word_found || trimmed_overflow || whitespace_overflow || untrimmed_overflow {
            self.commit(trim);
        }
        let line_full = self.line_w >= mw;
        let pending_word_overflow = symbol_width > 0 && self.line_w + self.ws_w + self.word_w >= mw;
        if line_full || pending_word_overflow {
            self.break_line(mw);
            if is_ws && self.ws.len() == 0 {
                return;
            }
        }
        self.add(g);
    }

    /// The rows once every symbol has been treated.
    fn finish(self, trim: bool) -> (rows: Vec<Vec<Sym>>)
        requires
            self.inv(),
        ensures
            rows_view(rows@) == wrap_finish(self.view(), trim),
    {
        let ghost st = self.view();
        let mut wrapped = self.wrapped;
        let mut line = self.line;
        let mut word = self.word;
        let mut ws = self.ws;
        if line.len() == 0 && word.len() == 0 && ws.len() > 0 && trim {
            wrapped.push(Vec::new());
        }
        if line.len() > 0 || !trim {
            move_all(&mut line, &mut ws);
        }
        line.append(&mut word);
        if line.len() > 0 {
            wrapped.push(line);
        }
        if wrapped.len() == 0 {
            wrapped.push(Vec::new());
        }
        assert(rows_view(wrapped@) =~= wrap_finish(st, trim));
        wrapped
    }
}

/// Splits symbols into screen rows of about `max_width` cells the way the
/// paragraph widget's word wrapper does: greedy by words; with `trim`,
/// whitespace at the start of a row is dropped; a word wider than a row is
/// split; symbols wider than `max_width` are skipped.
pub fn process_input(symbols: Vec<Sym>, max_width: u16, trim: bool) -> (rows: Vec<Vec<Sym>>)
    ensures
        rows_view(rows@) == spec_process(symbols@, max_width, trim),
{
    let ghost syms = symbols@;
    let ghost max = max_width as int;
    let mw = max_width as u128;
    let mut w = Wrapper::new();
    let mut i: usize = 0;
    while i < symbols.len()
        invariant
            i <= syms.len(),
            syms == symbols@,
            max == max_width as int,
            mw == max_width as u128,
            wrap_prefix(syms, i as int, max, trim) == w.view(),
            w.inv(),
            w.total() <= 65536 * i,
        decreases syms.len() - i,
    {
        w.step(symbols[i], mw, trim);
        i = i + 1;
    }
    w.finish(trim)
}

// ── Row maps ──────────────────────────────────────────────────────────────────

/// One visible grapheme of a screen row: its grapheme index in the line,
/// its screen column within the row (before alignment), its width and its
/// source column in the line.
#[derive(Clone, Copy, Debug, PartialEq, Eq, Structural)]
pub struct RowSeg {
    pub gi: usize,
    pub screen: u32,
    pub width: u16,
    pub src: u16,
}

/// How one screen row maps back to the source line: its visible width
/// and its visible graphemes, left to right.
#[derive(Debug)]
pub struct RowMap {
    pub width: u32,
    pub segs: Vec<RowSeg>,
}

/// A row map as values.
pub ghost struct RowView {
    pub width: u32,
    pub segs: Seq<RowSeg>,
}

impl RowMap {
    /// The row's width and segments.
    pub open spec fn view(&self) -> RowView {
        RowView { width: self.width, segs: self.segs@ }
    }
}

/// The visible width of a row's symbols (zero-width ones are not drawn).
pub open spec fn segs_width(syms: Seq<Sym>) -> u32
    decreases syms.len(),
{
    if syms.len() == 0 {
        0
    } else if syms.last().width == 0 {
        segs_width(syms.drop_last())
    } else {
        segs_width(syms.drop_last()).saturating_add(syms.last().width as u32)
    }
}

/// The visible segments of a row's symbols.
pub open spec fn spec_segs(syms: Seq<Sym>) -> Seq<RowSeg>
    decreases syms.len(),
{
    if syms.len() == 0 {
        Seq::empty()
    } else if syms.last().width == 0 {
        spec_segs(syms.drop_last())
    } else {
        let s = syms.last();
        spec_segs(syms.drop_last()).push(
            RowSeg { gi: s.gi, screen: segs_width(syms.drop_last()), width: s.width, src: s.src },
        )
    }
}

/// The row map of a row's symbols.
pub open spec fn spec_row_map(syms: Seq<Sym>) -> RowView {
    RowView { width: segs_width(syms), segs: spec_segs(syms) }
}

/// The row map of one wrapped or truncated row: zero-width graphemes are
/// not drawn; the others follow each other from screen column 0.
pub fn row_map(symbols: &Vec<Sym>) -> (r: RowMap)
    ensures
        r.view() == spec_row_map(symbols@),
{
    let mut segs: Vec<RowSeg> = Vec::new();
    let mut width: u32 = 0;
    let mut i: usize = 0;
    while i < symbols.len()
        invariant
            i <= symbols@.len(),
            width == segs_width(symbols@.take(i as int)),
            segs@ == spec_segs(symbols@.take(i as int)),
        decreases symbols@.len() - i,
    {
        let s = symbols[i];
        assert(symbols@.take(i + 1).drop_last() =~= symbols@.take(i as int));
        assert(symbols@.take(i + 1).last() == s);
        if s.width != 0 {
            segs.push(RowSeg { gi: s.gi, screen: width, width: s.width, src: s.src });
            width = width.saturating_add(s.width as u32);
        }
        i = i + 1;
    }
    assert(symbols@.take(i as int) =~= symbols@);
    RowMap { width, segs }
}

/// The row maps of a line wrapped at `max_width`.
pub open spec fn spec_wrapped_rows(line: Line, max_width: u16, trim: bool) -> Seq<RowView> {
    spec_process(line_syms(line), max_width, trim).map_values(|r: Seq<Sym>| spec_row_map(r))
}

/// Splits a line into wrapped screen rows. Always at least one row.
pub fn wrapped_rows(line: &Line, max_width: u16, trim: bool) -> (rows: Vec<RowMap>)
    ensures
        rows@.len() == spec_wrapped_rows(*line, max_width, trim).len(),
        rows@.len() >= 1,
        forall|k: int| 0 <= k < rows@.len() ==> #[trigger] rows@[k].view() == spec_wrapped_rows(
            *line,
            max_width,
            trim,
        )[k],
{
    let rows = process_input(line_symbols(line), max_width, trim);
    let ghost spec_rows = spec_wrapped_rows(*line, max_width, trim);
    proof {
        lemma_at_least_one_row(line_syms(*line), max_width, trim);
    }
    let mut out: Vec<RowMap> = Vec::new();
    let mut k: usize = 0;
    while k < rows.len()
        invariant
            k <= rows@.len(),
            rows_view(rows@).len() == spec_rows.len(),
            forall|j: int| 0 <= j < rows@.len() ==> spec_row_map(#[trigger] rows@[j]@) == spec_rows[j],
            out@.len() == k,
            forall|j: int| 0 <= j < k ==> #[trigger] out@[j].view() == spec_rows[j],
        decreases rows@.len() - k,
    {
        out.push(row_map(&rows[k]));
        k = k + 1;
    }
    out
}

// ── Truncation ────────────────────────────────────────────────────────────────

/// The state of truncation between two symbols: the segments so far, the
/// width used, the horizontal offset still to skip, and whether the row
/// is full.
pub ghost struct TruncState {
    pub segs: Seq<RowSeg>,
    pub cur_w: int,
    pub h: int,
    pub done: bool,
}

/// Truncation's treatment of one symbol.
pub open spec fn trunc_step(st: TruncState, s: Sym, max: int, left: bool) -> TruncState {
    let seg = RowSeg { gi: s.gi, screen: st.cur_w as u32, width: s.width, src: s.src };
    if st.done || s.width > max {
        st
    } else if st.cur_w + s.width > max {
        TruncState { done: true, ..st }
    } else if st.h == 0 || !left {
        TruncState { segs: st.segs.push(seg), cur_w: st.cur_w + s.width, ..st }
    } else if s.width > st.h {
        TruncState { segs: st.segs.push(seg), cur_w: st.cur_w + s.width, h: 0, ..st }
    } else {
        TruncState { h: st.h - s.width, ..st }
    }
}

/// The truncation state after the first `n` symbols.
pub open spec fn trunc_prefix(syms: Seq<Sym>, n: int, max: int, h: int, left: bool) -> TruncState
    decreases n,
{
    if n <= 0 {
        TruncState { segs: Seq::empty(), cur_w: 0, h, done: false }
    } else {
        trunc_step(trunc_prefix(syms, n - 1, max, h, left), syms[n - 1], max, left)
    }
}

/// The single screen row of a line rendered without wrapping.
pub open spec fn spec_truncated_row(line: Line, max_width: u16, h_offset: u16, alignment: Alignment) -> RowView {
    let syms = line_syms(line);
    let st = trunc_prefix(syms, syms.len() as int, max_width as int, h_offset as int, alignment == Alignment::Left);
    RowView { width: st.cur_w as u32, segs: st.segs }
}

/// The single screen row of a line rendered without wrapping: truncated at
/// `max_width`, with the horizontal scroll `h_offset` applied to
/// left-aligned lines only; a partly scrolled-out grapheme is kept whole.
pub fn truncated_row(line: &Line, max_width: u16, h_offset: u16, alignment: Alignment) -> (r: RowMap)
    ensures
        r.view() == spec_truncated_row(*line, max_width, h_offset, alignment),
{
    let syms = line_symbols(line);
    let left = match alignment {
        Alignment::Left => true,
        _ => false,
    };
    let ghost max = max_width as int;
    let mut segs: Vec<RowSeg> = Vec::new();
    let mut cur_w: u32 = 0;
    let mut h: u16 = h_offset;
    let mut i: usize = 0;
    while i < syms.len()
        invariant_except_break
            i <= syms@.len(),
            trunc_prefix(syms@, i as int, max, h_offset as int, left) == (TruncState {
                segs: segs@,
                cur_w: cur_w as int,
                h: h as int,
                done: false,
            }),
            cur_w <= max_width,
            max == max_width as int,
            left == (alignment == Alignment::Left),
        ensures
            trunc_prefix(syms@, syms@.len() as int, max, h_offset as int, left).segs == segs@,
            trunc_prefix(syms@, syms@.len() as int, max, h_offset as int, left).cur_w == cur_w as int,
        decreases syms@.len() - i,
    {
        let sym = syms[i];
        proof {
            assert(trunc_prefix(syms@, i + 1, max, h_offset as int, left) == trunc_step(
                trunc_prefix(syms@, i as int, max, h_offset as int, left),
                sym,
                max,
                left,
            ));
        }
        i = i + 1;
        if sym.width > max_width {
            continue;
        }
        if cur_w + sym.width as u32 > max_width as u32 {
            proof {
                lemma_trunc_done(syms@, i as int, max, h_offset as int, left);
            }
            break;
        }
        if h == 0 || !left {
            segs.push(RowSeg { gi: sym.gi, screen: cur_w, width: sym.width, src: sym.src });
            cur_w = cur_w + sym.width as u32;
        } else if sym.width > h {
            h = 0;
            segs.push(RowSeg { gi: sym.gi, screen: cur_w, width: sym.width, src: sym.src });
            cur_w = cur_w + sym.width as u32;
        } else {
            h = h - sym.width;
        }
    }
    RowMap { width: cur_w, segs }
}

/// Once truncation is done, later symbols change nothing.
proof fn lemma_trunc_done(syms: Seq<Sym>, n: int, max: int, h: int, left: bool)
    requires
        0 <= n <= syms.len(),
        trunc_prefix(syms, n, max, h, left).done,
    ensures
        trunc_prefix(syms, syms.len() as int, max, h, left) == trunc_prefix(syms, n, max, h, left),
    decreases syms.len() - n,
{
    if n < syms.len() {
        assert(trunc_prefix(syms, n + 1, max, h, left) == trunc_prefix(syms, n, max, h, left));
        lemma_trunc_done(syms, n + 1, max, h, left);
    }
}

/// The width and source column of each symbol of some graphemes.
proof fn lemma_symbols_at(gs: Seq<Seq<char>>, i: int)
    requires
        0 <= i < gs.len(),
    ensures
        spec_symbols(gs).len() == gs.len(),
        spec_symbols(gs)[i].src == clusters_end(gs.take(i)),
        spec_symbols(gs)[i].width == cluster_width(gs[i]),
    decreases gs.len(),
{
    lemma_symbols_len(gs);
    if i < gs.len() - 1 {
        lemma_symbols_at(gs.drop_last(), i);
        assert(gs.drop_last().take(i) =~= gs.take(i));
    } else {
        assert(gs.take(i) =~= gs.drop_last());
    }
}

proof fn lemma_symbols_len(gs: Seq<Seq<char>>)
    ensures
        spec_symbols(gs).len() == gs.len(),
    decreases gs.len(),
{
    if gs.len() > 0 {
        lemma_symbols_len(gs.drop_last());
    }
}

/// Segments that follow each other without gaps from column `base`.
pub open spec fn contiguous_from(segs: Seq<RowSeg>, base: int) -> bool {
    forall|k: int|
        0 <= k < segs.len() ==> (#[trigger] segs[k]).screen as int == (if k == 0 {
            base
        } else {
            segs[k - 1].screen + segs[k - 1].width
        })
}

/// The column just after contiguous segments starting at `base`.
pub open spec fn segs_end(segs: Seq<RowSeg>, base: int) -> int {
    if segs.len() == 0 {
        base
    } else {
        segs.last().screen + segs.last().width
    }
}

/// Contiguous segments cover every column between their start and end.
proof fn lemma_seg_at_covers(segs: Seq<RowSeg>, base: int, x: int)
    requires
        contiguous_from(segs, base),
        base <= x < segs_end(segs, base),
    ensures
        seg_at(segs, x) matches Some(s) && s.screen <= x < s.screen + s.width && (exists|k: int|
            0 <= k < segs.len() && #[trigger] segs[k] == s),
    decreases segs.len(),
{
    assert(segs.len() > 0);
    assert(segs[0].screen == base);
    if x < segs[0].screen + segs[0].width {
        assert(segs[0] == segs[0]);
    } else {
        let rest = segs.drop_first();
        let b2 = segs[0].screen + segs[0].width;
        assert forall|k: int| 0 <= k < rest.len() implies (#[trigger] rest[k]).screen as int == (if k == 0 {
            b2
        } else {
            rest[k - 1].screen + rest[k - 1].width
        }) by {
            assert(rest[k] == segs[k + 1]);
            assert(segs[k + 1].screen as int == segs[k].screen + segs[k].width);
        }
        if rest.len() == 0 {
            assert(segs.len() == 1);
        } else {
            assert(rest.last() == segs.last());
        }
        lemma_seg_at_covers(rest, b2, x);
        let s = seg_at(rest, x)->0;
        let k = choose|k: int| 0 <= k < rest.len() && #[trigger] rest[k] == s;
        assert(segs[k + 1] == s);
    }
}

/// Truncating a left-aligned row without horizontal offset, when every
/// symbol fits the width, draws each grapheme at its source column, one
/// after the other from column 0.
#[verifier::rlimit(40)]
proof fn lemma_trunc_left_columns(gs: Seq<Seq<char>>, n: int, max: int)
    requires
        0 <= n <= gs.len(),
        0 <= max <= 65535,
        forall|k: int| 0 <= k < gs.len() ==> cluster_width(#[trigger] gs[k]) <= max,
    ensures
        ({
            let st = trunc_prefix(spec_symbols(gs), n, max, 0, true);
            &&& st.h == 0
            &&& 0 <= st.cur_w <= max
            &&& !st.done ==> st.cur_w == clusters_end(gs.take(n)) as int
            &&& contiguous_from(st.segs, 0)
            &&& segs_end(st.segs, 0) == st.cur_w
            &&& forall|k: int| 0 <= k < st.segs.len() ==> (#[trigger] st.segs[k]).screen as int == st.segs[k].src as int
        }),
    decreases n,
{
    lemma_symbols_len(gs);
    if n > 0 {
        lemma_trunc_left_columns(gs, n - 1, max);
        lemma_symbols_at(gs, n - 1);
        let syms = spec_symbols(gs);
        let prev = trunc_prefix(syms, n - 1, max, 0, true);
        let sym = syms[n - 1];
        let st = trunc_prefix(syms, n, max, 0, true);
        assert(st == trunc_step(prev, sym, max, true));
        assert(sym.width <= max) by {
            assert(cluster_width(gs[n - 1]) <= max);
        }
        assert(gs.take(n).drop_last() =~= gs.take(n - 1));
        assert(gs.take(n).last() == gs[n - 1]);
        if prev.done {
            assert(st == prev);
        } else if prev.cur_w + sym.width > max {
            assert(st.segs == prev.segs);
            assert(st.cur_w == prev.cur_w);
        } else {
            let seg = RowSeg { gi: sym.gi, screen: prev.cur_w as u32, width: sym.width, src: sym.src };
            assert(st.segs == prev.segs.push(seg));
            assert(st.cur_w == prev.cur_w + sym.width);
            assert(clusters_end(gs.take(n)) as int == prev.cur_w + sym.width);
            assert forall|k: int| 0 <= k < st.segs.len() implies (#[trigger] st.segs[k]).screen as int == (if k == 0 {
                0
            } else {
                st.segs[k - 1].screen + st.segs[k - 1].width
            }) by {
                if k < prev.segs.len() {
                    assert(st.segs[k] == prev.segs[k]);
                    if k > 0 {
                        assert(st.segs[k - 1] == prev.segs[k - 1]);
                    }
                } else if k > 0 {
                    assert(st.segs[k - 1] == prev.segs.last());
                }
            }
            assert forall|k: int| 0 <= k < st.segs.len() implies (#[trigger] st.segs[k]).screen as int
                == st.segs[k].src as int by {
                if k < prev.segs.len() {
                    assert(st.segs[k] == prev.segs[k]);
                }
            }
        }
    }
}

/// A left-aligned row drawn without horizontal scroll, in an area at least
/// as wide as each of the line's graphemes, maps every drawn screen column
/// back to the same source column.
#[verifier::rlimit(100)]
pub proof fn lemma_left_row_columns(line: Line, max_width: u16, x: u16)
    requires
        forall|k: int|
            0 <= k < line_clusters(line.spans@).len() ==> cluster_width(#[trigger] line_clusters(line.spans@)[k])
                <= max_width,
        (x as int) < spec_truncated_row(line, max_width, 0, Alignment::Left).width,
    ensures
        spec_truncated_row(line, max_width, 0, Alignment::Left).width <= max_width,
        spec_hit_src_col(spec_truncated_row(line, max_width, 0, Alignment::Left), x, max_width, Alignment::Left)
            == Some(x),
{
    let gs = line_clusters(line.spans@);
    let row = spec_truncated_row(line, max_width, 0, Alignment::Left);
    let segs = row.segs;
    assert(row.width <= max_width && contiguous_from(segs, 0) && segs_end(segs, 0) == row.width as int && forall|k: int|
        0 <= k < segs.len() ==> (#[trigger] segs[k]).screen as int == segs[k].src as int) by {
        lemma_symbols_len(gs);
        lemma_trunc_left_columns(gs, gs.len() as int, max_width as int);
    }
    lemma_seg_at_covers(segs, 0, x as int);
    let s = seg_at(segs, x as int)->0;
    let k = choose|k: int| 0 <= k < segs.len() && #[trigger] segs[k] == s;
    assert(s.screen as int == s.src as int);
}

/// Without left alignment, truncation never skips columns: the offset to
/// skip is carried along unchanged and does not affect the segments.
proof fn lemma_trunc_ignores_offset(syms: Seq<Sym>, n: int, max: int, h1: int, h2: int)
    ensures
        ({
            let a = trunc_prefix(syms, n, max, h1, false);
            let b = trunc_prefix(syms, n, max, h2, false);
            &&& a.segs == b.segs
            &&& a.cur_w == b.cur_w
            &&& a.done == b.done
            &&& a.h == h1
            &&& b.h == h2
        }),
    decreases n,
{
    if n > 0 {
        lemma_trunc_ignores_offset(syms, n - 1, max, h1, h2);
    }
}

/// A centred or right-aligned row does not depend on the horizontal
/// scroll offset.
pub proof fn lemma_unaligned_row_ignores_offset(line: Line, max_width: u16, h1: u16, h2: u16, alignment: Alignment)
    requires
        alignment != Alignment::Left,
    ensures
        spec_truncated_row(line, max_width, h1, alignment) == spec_truncated_row(line, max_width, h2, alignment),
{
    let syms = line_syms(line);
    lemma_trunc_ignores_offset(syms, syms.len() as int, max_width as int, h1 as int, h2 as int);
}

// ── Hit mapping ───────────────────────────────────────────────────────────────

/// The horizontal offset of a row of the given width within an area.
pub open spec fn spec_line_offset(line_width: u32, area_width: u16, alignment: Alignment) -> u16 {
    match alignment {
        Alignment::Center => {
            let half = (area_width / 2) as int;
            let lw = (line_width / 2) as int;
            if half > lw {
                (half - lw) as u16
            } else {
                0
            }
        },
        Alignment::Right => {
            if area_width as int > line_width as int {
                (area_width - line_width) as u16
            } else {
                0
            }
        },
        Alignment::Left => 0,
    }
}

/// Horizontal offset of a rendered row within its area: centred rows start
/// at half the area less half the row, right-aligned ones at the area less
/// the row, left-aligned ones at 0.
pub fn line_offset(line_width: u32, area_width: u16, alignment: Alignment) -> (o: u16)
    ensures
        o == spec_line_offset(line_width, area_width, alignment),
        o <= area_width,
{
    match alignment {
        Alignment::Center => {
            let half = (area_width / 2) as u32;
            let lw = line_width / 2;
            if half > lw {
                (half - lw) as u16
            } else {
                0
            }
        },
        Alignment::Right => {
            if area_width as u32 > line_width {
                (area_width as u32 - line_width) as u16
            } else {
                0
            }
        },
        Alignment::Left => 0,
    }
}

/// The first segment covering screen column `xr`, if any.
pub open spec fn seg_at(segs: Seq<RowSeg>, xr: int) -> Option<RowSeg>
    decreases segs.len(),
{
    if segs.len() == 0 {
        None
    } else if segs[0].screen <= xr && xr < segs[0].screen + segs[0].width {
        Some(segs[0])
    } else {
        seg_at(segs.drop_first(), xr)
    }
}

/// The source column under position `x` of a row drawn in an area of the
/// given width and alignment.
pub open spec fn spec_hit_src_col(row: RowView, x: u16, area_width: u16, alignment: Alignment) -> Option<u16> {
    let offset = spec_line_offset(row.width, area_width, alignment);
    if x < offset {
        None
    } else {
        let xr = x - offset;
        if xr >= row.width {
            None
        } else {
            match seg_at(row.segs, xr) {
                Some(seg) => Some(seg.src.saturating_add((xr - seg.screen) as u16)),
                None => None,
            }
        }
    }
}

/// Maps a position `x` within the area to the source column in the
/// line, accounting for alignment. `None` over alignment padding or past
/// the end of the row's content.
pub fn hit_src_col(row: &RowMap, x: u16, area_width: u16, alignment: Alignment) -> (r: Option<u16>)
    ensures
        r == spec_hit_src_col(row.view(), x, area_width, alignment),
{
    let offset = line_offset(row.width, area_width, alignment);
    if x < offset {
        return None;
    }
    let xr = x - offset;
    if xr as u32 >= row.width {
        return None;
    }
    let mut i: usize = 0;
    assert(row.segs@.skip(0) =~= row.segs@);
    while i < row.segs.len()
        invariant
            i <= row.segs@.len(),
            seg_at(row.segs@, xr as int) == seg_at(row.segs@.skip(i as int), xr as int),
            offset == spec_line_offset(row.width, area_width, alignment),
            x >= offset,
            xr == x - offset,
            (xr as int) < row.width,
        decreases row.segs@.len() - i,
    {
        let seg = row.segs[i];
        assert(row.segs@.skip(i as int).drop_first() =~= row.segs@.skip(i + 1));
        assert(row.segs@.skip(i as int)[0] == seg);
        if seg.screen <= xr as u32 && (xr as u64) < seg.screen as u64 + seg.width as u64 {
            return Some(seg.src.saturating_add((xr as u32 - seg.screen) as u16));
        }
        i = i + 1;
    }
    None
}

} // verus!
