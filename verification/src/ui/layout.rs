//! Text in lines of a given width, and the place of the cursor in it.
use crate::outside::text::push_char;
use crate::outside::unicode::{clusters, columns, flat, graphemes, width};
use crate::util::text::{same_text, views};
use vstd::prelude::*;

verus! {

/// How many columns a cluster takes.
pub open spec fn cluster_width(g: Seq<char>) -> u16 {
    columns(g) as u16
}

/// Lines of clusters, the clusters of the line that is being filled, and the columns they take.
pub ghost struct WrapState {
    pub lines: Seq<Seq<Seq<char>>>,
    pub current: Seq<Seq<char>>,
    pub width: int,
}

/// One more cluster: a newline ends the line, a cluster wider than a line is left out, and one that
/// does not fit into the line begins another.
pub open spec fn wrap_step(s: WrapState, g: Seq<char>, max_width: u16) -> WrapState {
    let w = cluster_width(g);
    if g == "\n"@ {
        WrapState { lines: s.lines.push(s.current), current: Seq::empty(), width: 0 }
    } else if w > max_width {
        s
    } else if s.width + w > max_width {
        WrapState { lines: s.lines.push(s.current), current: seq![g], width: w as int }
    } else {
        WrapState { lines: s.lines, current: s.current.push(g), width: s.width + w }
    }
}

/// The lines that some clusters fill.
pub open spec fn wrap_state(gs: Seq<Seq<char>>, max_width: u16) -> WrapState
    decreases gs.len(),
{
    if gs.len() == 0 {
        WrapState { lines: Seq::empty(), current: Seq::empty(), width: 0 }
    } else {
        wrap_step(wrap_state(gs.drop_last(), max_width), gs.last(), max_width)
    }
}

/// The clusters of each line.
pub open spec fn wrapped_clusters(gs: Seq<Seq<char>>, max_width: u16) -> Seq<Seq<Seq<char>>> {
    let s = wrap_state(gs, max_width);
    s.lines.push(s.current)
}

/// The text of each line.
pub open spec fn line_texts(lines: Seq<Seq<Seq<char>>>) -> Seq<Seq<char>> {
    lines.map_values(|l: Seq<Seq<char>>| flat(l))
}

/// A text in lines of a given width.
pub open spec fn wrapped(text: Seq<char>, max_width: u16) -> Seq<Seq<char>> {
    if max_width == 0 {
        seq![Seq::<char>::empty()]
    } else {
        line_texts(wrapped_clusters(clusters(text), max_width))
    }
}

pub fn wrap_graphemes(text: &str, max_width: u16) -> (out: Vec<String>)
    ensures
        views(out@) == wrapped(text@, max_width),
        out@.len() > 0,
{
    let mut lines: Vec<String> = Vec::new();
    if max_width == 0 {
        lines.push(String::new());
        assert(views(lines@) =~= seq![Seq::<char>::empty()]);
        return lines;
    }
    let parts = graphemes(text);
    let ghost gs = clusters(text@);
    let mut current = String::new();
    let mut current_width: u32 = 0;
    let mut i: usize = 0;
    proof {
        assert(gs.take(0) =~= Seq::<Seq<char>>::empty());
        assert(views(lines@) =~= line_texts(wrap_state(gs.take(0), max_width).lines));
        assert(current@ =~= flat(wrap_state(gs.take(0), max_width).current));
    }
    while i < parts.len()
        invariant
            i <= parts@.len(),
            gs == views(parts@),
            current_width <= max_width,
            current_width == wrap_state(gs.take(i as int), max_width).width,
            current@ == flat(wrap_state(gs.take(i as int), max_width).current),
            views(lines@) == line_texts(wrap_state(gs.take(i as int), max_width).lines),
        decreases parts.len() - i,
    {
        let symbol = parts[i].as_str();
        let ghost s = wrap_state(gs.take(i as int), max_width);
        let ghost before = lines@;
        let ghost cur = current@;
        proof {
            assert(gs[i as int] == symbol@);
            assert(gs.take(i + 1).drop_last() =~= gs.take(i as int));
            assert(gs.take(i + 1).last() == symbol@);
        }
        if same_text(symbol, "\n") {
            lines.push(current);
            current = String::new();
            current_width = 0;
            proof {
                assert(views(lines@) =~= views(before).push(cur));
                assert(line_texts(s.lines.push(s.current)) =~= line_texts(s.lines).push(cur));
                assert(current@ =~= flat(Seq::<Seq<char>>::empty()));
            }
        } else {
            let symbol_width: u16 = #[verifier::truncate] (width(symbol) as u16);
            if symbol_width <= max_width {
                if current_width + symbol_width as u32 > max_width as u32 {
                    lines.push(current);
                    current = String::new();
                    current_width = 0;
                    proof {
                        assert(views(lines@) =~= views(before).push(cur));
                        assert(line_texts(s.lines.push(s.current)) =~= line_texts(s.lines).push(
                            cur,
                        ));
                        lemma_flat_single(symbol@);
                        assert(current@ + symbol@ =~= symbol@);
                    }
                } else {
                    assert(s.current.push(symbol@).drop_last() =~= s.current);
                }
                current.append(symbol);
                current_width = current_width + symbol_width as u32;
            }
        }
        i += 1;
    }
    proof {
        assert(gs.take(gs.len() as int) =~= gs);
        let s = wrap_state(gs, max_width);
        assert(line_texts(s.lines.push(s.current)) =~= line_texts(s.lines).push(current@));
    }
    let ghost before = lines@;
    let ghost last = current@;
    lines.push(current);
    assert(views(lines@) =~= views(before).push(last));
    lines
}

/// How many columns some clusters take, one by one.
pub open spec fn total_width(line: Seq<Seq<char>>) -> int
    decreases line.len(),
{
    if line.len() == 0 {
        0
    } else {
        total_width(line.drop_last()) + cluster_width(line.last())
    }
}

/// Every line fits into the width.
pub proof fn law_wrapped_lines_fit(gs: Seq<Seq<char>>, max_width: u16)
    ensures
        forall|i: int|
            0 <= i < wrapped_clusters(gs, max_width).len() ==> total_width(
                #[trigger] wrapped_clusters(gs, max_width)[i],
            ) <= max_width,
{
    lemma_wrap_fits(gs, max_width);
}

pub proof fn lemma_wrap_fits(gs: Seq<Seq<char>>, max_width: u16)
    ensures
        ({
            let s = wrap_state(gs, max_width);
            &&& s.width == total_width(s.current)
            &&& s.width <= max_width
            &&& forall|i: int|
                0 <= i < s.lines.len() ==> total_width(#[trigger] s.lines[i]) <= max_width
        }),
    decreases gs.len(),
{
    if gs.len() > 0 {
        lemma_wrap_fits(gs.drop_last(), max_width);
        let s = wrap_state(gs.drop_last(), max_width);
        let g = gs.last();
        assert(s.current.push(g).drop_last() =~= s.current);
        reveal_with_fuel(total_width, 2);
        assert(seq![g].drop_last() =~= Seq::<Seq<char>>::empty());
    }
}

/// The clusters that are shown: all but newlines and those wider than a line.
pub open spec fn shown_clusters(gs: Seq<Seq<char>>, max_width: u16) -> Seq<Seq<char>>
    decreases gs.len(),
{
    if gs.len() == 0 {
        Seq::empty()
    } else if gs.last() == "\n"@ || cluster_width(gs.last()) > max_width {
        shown_clusters(gs.drop_last(), max_width)
    } else {
        shown_clusters(gs.drop_last(), max_width).push(gs.last())
    }
}

/// Lines of clusters one after the other.
pub open spec fn all_clusters(lines: Seq<Seq<Seq<char>>>) -> Seq<Seq<char>>
    decreases lines.len(),
{
    if lines.len() == 0 {
        Seq::empty()
    } else {
        all_clusters(lines.drop_last()) + lines.last()
    }
}

/// The lines one after the other hold every cluster that is shown, in order.
pub proof fn law_wrapping_keeps_text(gs: Seq<Seq<char>>, max_width: u16)
    ensures
        all_clusters(wrapped_clusters(gs, max_width)) == shown_clusters(gs, max_width),
{
    lemma_wrap_keeps(gs, max_width);
    let s = wrap_state(gs, max_width);
    assert(s.lines.push(s.current).drop_last() =~= s.lines);
}

proof fn lemma_wrap_keeps(gs: Seq<Seq<char>>, max_width: u16)
    ensures
        ({
            let s = wrap_state(gs, max_width);
            all_clusters(s.lines) + s.current == shown_clusters(gs, max_width)
        }),
    decreases gs.len(),
{
    if gs.len() == 0 {
        let s = wrap_state(gs, max_width);
        assert(all_clusters(s.lines) + s.current =~= Seq::<Seq<char>>::empty());
    } else {
        lemma_wrap_keeps(gs.drop_last(), max_width);
        let p = wrap_state(gs.drop_last(), max_width);
        let s = wrap_state(gs, max_width);
        let g = gs.last();
        assert(p.lines.push(p.current).drop_last() =~= p.lines);
        if g == "\n"@ {
            assert(all_clusters(s.lines) + s.current =~= all_clusters(p.lines) + p.current);
        } else if cluster_width(g) > max_width {
        } else if p.width + cluster_width(g) > max_width {
            assert(all_clusters(s.lines) + s.current =~= (all_clusters(p.lines) + p.current).push(
                g,
            ));
        } else {
            assert(all_clusters(s.lines) + s.current =~= (all_clusters(p.lines) + p.current).push(
                g,
            ));
        }
    }
}

/// A number, or the largest there is.
pub open spec fn at_most(n: nat, max: nat) -> nat {
    if n < max {
        n
    } else {
        max
    }
}

/// The text before a number of clusters.
pub open spec fn before_cluster(text: Seq<char>, n: usize) -> Seq<char> {
    let gs = clusters(text);
    flat(gs.take(at_most(n as nat, gs.len()) as int))
}

/// The text after a number of clusters.
pub open spec fn after_cluster(text: Seq<char>, n: usize) -> Seq<char> {
    let gs = clusters(text);
    flat(gs.skip(at_most(n as nat, gs.len()) as int))
}

fn join_range(parts: &Vec<String>, from: usize, to: usize) -> (text: String)
    requires
        from <= to <= parts@.len(),
    ensures
        text@ == flat(views(parts@).subrange(from as int, to as int)),
{
    let ghost all = views(parts@);
    let mut text = String::new();
    let mut i: usize = from;
    assert(all.subrange(from as int, from as int) =~= Seq::<Seq<char>>::empty());
    assert(text@ =~= Seq::<char>::empty());
    while i < to
        invariant
            from <= i <= to <= parts@.len(),
            all == views(parts@),
            text@ == flat(all.subrange(from as int, i as int)),
        decreases to - i,
    {
        text.append(parts[i].as_str());
        proof {
            let s = all.subrange(from as int, i + 1);
            assert(s.drop_last() =~= all.subrange(from as int, i as int));
            assert(s.last() == parts@[i as int]@);
        }
        i += 1;
    }
    text
}

/// A text cut behind a number of clusters, and how many clusters it has.
pub fn split_at_cluster(text: &str, n: usize) -> (out: (String, String, usize))
    ensures
        out.0@ == before_cluster(text@, n),
        out.1@ == after_cluster(text@, n),
        out.2 == clusters(text@).len(),
        out.0@ + out.1@ == text@,
{
    let parts = graphemes(text);
    let ghost gs = clusters(text@);
    assert(views(parts@).len() == parts@.len());
    let at: usize = if n < parts.len() {
        n
    } else {
        parts.len()
    };
    let head = join_range(&parts, 0, at);
    let tail = join_range(&parts, at, parts.len());
    proof {
        assert(gs.subrange(0, at as int) =~= gs.take(at as int));
        assert(gs.subrange(at as int, gs.len() as int) =~= gs.skip(at as int));
        lemma_flat_concat(gs.take(at as int), gs.skip(at as int));
        assert(gs.take(at as int) + gs.skip(at as int) =~= gs);
    }
    (head, tail, parts.len())
}

/// A single text, taken by itself.
pub proof fn lemma_flat_single(g: Seq<char>)
    ensures
        flat(seq![g]) == g,
{
    reveal_with_fuel(flat, 2);
    assert(seq![g].drop_last() =~= Seq::<Seq<char>>::empty());
    assert(flat(seq![g]) =~= g);
}

/// The flat text of two runs is that of the one and then of the other.
pub proof fn lemma_flat_concat(a: Seq<Seq<char>>, b: Seq<Seq<char>>)
    ensures
        flat(a + b) == flat(a) + flat(b),
    decreases b.len(),
{
    if b.len() == 0 {
        assert(a + b =~= a);
        assert(flat(a) + flat(b) =~= flat(a));
    } else {
        lemma_flat_concat(a, b.drop_last());
        assert((a + b).drop_last() =~= a + b.drop_last());
        assert((a + b).last() == b.last());
        assert(flat(a) + flat(b.drop_last()) + b.last() =~= flat(a) + flat(b));
    }
}

/// How many clusters a text has.
pub fn cluster_count(text: &str) -> (n: usize)
    ensures
        n == clusters(text@).len(),
{
    let parts = graphemes(text);
    assert(views(parts@).len() == parts@.len());
    parts.len()
}

/// The column and the line of the cursor behind a number of clusters.
pub open spec fn cursor_place(input: Seq<char>, cursor: usize, max_width: u16) -> (u16, u16) {
    let lines = wrapped(before_cluster(input, cursor), max_width);
    (columns(lines.last()) as u16, (lines.len() - 1) as u16)
}

pub fn input_cursor_position(input: &str, cursor: usize, max_width: u16) -> (place: (u16, u16))
    ensures
        place == cursor_place(input@, cursor, max_width),
{
    let (prefix, _, _) = split_at_cluster(input, cursor);
    let lines = wrap_graphemes(prefix.as_str(), max_width);
    assert(views(lines@).len() == lines@.len());
    let last: usize = lines.len() - 1;
    assert(views(lines@).last() == lines@[last as int]@);
    (
        #[verifier::truncate] (width(lines[last].as_str()) as u16),
        #[verifier::truncate] (last as u16),
    )
}

/// A row of blanks.
pub open spec fn blanks(n: nat) -> Seq<char> {
    Seq::new(n, |i: int| ' ')
}

/// A text moved to the right edge.
pub open spec fn right_aligned(text: Seq<char>, max_width: usize) -> Seq<char> {
    let pad = if columns(text) < max_width {
        (max_width - columns(text)) as nat
    } else {
        0
    };
    blanks(pad) + text
}

pub fn align_right(text: &str, max_width: usize) -> (out: String)
    ensures
        out@ == right_aligned(text@, max_width),
{
    let w = width(text);
    let pad: usize = if w < max_width {
        max_width - w
    } else {
        0
    };
    let mut out = String::new();
    let mut i: usize = 0;
    assert(out@ =~= blanks(0));
    while i < pad
        invariant
            i <= pad,
            out@ == blanks(i as nat),
        decreases pad - i,
    {
        push_char(&mut out, ' ');
        assert(out@ =~= blanks((i + 1) as nat));
        i += 1;
    }
    out.append(text);
    out
}

} // verus!
