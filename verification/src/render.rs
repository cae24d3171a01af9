//! Rendering of merged windows into output lines.
//!
//! Every line of a window prints; a line the mask marks as a match carries a
//! trailing tab plus its score in brackets, unless scores are hidden. A `--`
//! separator stands between blocks (they are never adjacent), and a final
//! `--` closes the batch output ahead of the summary.

use crate::digits::score_chars;
use crate::window::Window;
use vstd::prelude::*;

verus! {

/// The views of a sequence of strings.
pub open spec fn texts_of(v: Seq<String>) -> Seq<Seq<char>> {
    v.map(|i: int, s: String| s@)
}

/// Appending a string extends the sequence of views by its view.
pub(crate) proof fn lemma_texts_push(v: Seq<String>, s: String)
    ensures
        texts_of(v.push(s)) =~= texts_of(v).push(s@),
{
    assert forall|i: int| 0 <= i < v.len() implies texts_of(v.push(s))[i] == texts_of(v).push(
        s@,
    )[i] by {
        assert(texts_of(v)[i] == v[i]@);
    }
}

/// The block separator line.
pub open spec fn sep_chars() -> Seq<char> {
    "--"@
}

/// How one line prints: matched lines carry `\t[score]` unless scores are
/// hidden; context lines print bare.
pub open spec fn rendered_line(line: Seq<char>, score: int, is_match: bool, hide: bool) -> Seq<
    char,
> {
    if is_match && !hide {
        line + "\t["@ + score_chars(score) + "]"@
    } else {
        line
    }
}

/// The printed lines of one window `[s, e)`.
pub open spec fn block_lines(
    lines: Seq<Seq<char>>,
    scores: Seq<i64>,
    mask: Seq<bool>,
    hide: bool,
    s: int,
    e: int,
) -> Seq<Seq<char>> {
    Seq::new((e - s) as nat, |t: int| rendered_line(lines[s + t], scores[s + t] as int, mask[s + t], hide))
}

/// The printed lines of a sequence of windows, a separator between each
/// pair of neighbours and none after the last.
pub open spec fn blocks_output(
    lines: Seq<Seq<char>>,
    scores: Seq<i64>,
    mask: Seq<bool>,
    hide: bool,
    ws: Seq<Window>,
) -> Seq<Seq<char>>
    decreases ws.len(),
{
    if ws.len() == 0 {
        Seq::empty()
    } else if ws.len() == 1 {
        block_lines(lines, scores, mask, hide, ws[0].start as int, ws[0].end as int)
    } else {
        blocks_output(lines, scores, mask, hide, ws.drop_last()) + seq![sep_chars()] + block_lines(
            lines,
            scores,
            mask,
            hide,
            ws.last().start as int,
            ws.last().end as int,
        )
    }
}

/// Appending a window appends a separator (when blocks precede it) and the
/// new window's lines.
pub proof fn lemma_blocks_output_push(
    lines: Seq<Seq<char>>,
    scores: Seq<i64>,
    mask: Seq<bool>,
    hide: bool,
    ws: Seq<Window>,
    w: Window,
)
    ensures
        blocks_output(lines, scores, mask, hide, ws.push(w)) == blocks_output(
            lines,
            scores,
            mask,
            hide,
            ws,
        ) + (if ws.len() > 0 {
            seq![sep_chars()]
        } else {
            Seq::<Seq<char>>::empty()
        }) + block_lines(lines, scores, mask, hide, w.start as int, w.end as int),
{
    let ws2 = ws.push(w);
    if ws.len() == 0 {
        assert(blocks_output(lines, scores, mask, hide, ws2) =~= blocks_output(
            lines,
            scores,
            mask,
            hide,
            ws,
        ) + Seq::<Seq<char>>::empty() + block_lines(
            lines,
            scores,
            mask,
            hide,
            w.start as int,
            w.end as int,
        ));
    } else {
        assert(ws2.drop_last() =~= ws);
        assert(ws2.last() == w);
    }
}

/// Extending the final window by one line appends exactly that rendered
/// line to the output.
pub proof fn lemma_blocks_extend_last(
    lines: Seq<Seq<char>>,
    scores: Seq<i64>,
    mask: Seq<bool>,
    hide: bool,
    ws: Seq<Window>,
    w: Window,
)
    requires
        ws.len() > 0,
        w.start == ws.last().start,
        w.end == ws.last().end + 1,
        ws.last().start <= ws.last().end,
    ensures
        blocks_output(lines, scores, mask, hide, ws.update(ws.len() - 1, w)) == blocks_output(
            lines,
            scores,
            mask,
            hide,
            ws,
        ) + seq![
            rendered_line(
                lines[ws.last().end as int],
                scores[ws.last().end as int] as int,
                mask[ws.last().end as int],
                hide,
            ),
        ],
{
    let ws2 = ws.update(ws.len() - 1, w);
    let s = ws.last().start as int;
    let e = ws.last().end as int;
    assert(block_lines(lines, scores, mask, hide, s, e + 1) =~= block_lines(
        lines,
        scores,
        mask,
        hide,
        s,
        e,
    ) + seq![rendered_line(lines[e], scores[e] as int, mask[e], hide)]);
    if ws.len() == 1 {
        assert(blocks_output(lines, scores, mask, hide, ws2) == block_lines(
            lines,
            scores,
            mask,
            hide,
            s,
            e + 1,
        ));
    } else {
        assert(ws2.drop_last() =~= ws.drop_last());
        assert(ws2.last() == w);
        assert(blocks_output(lines, scores, mask, hide, ws2) =~= blocks_output(
            lines,
            scores,
            mask,
            hide,
            ws,
        ) + seq![rendered_line(lines[e], scores[e] as int, mask[e], hide)]);
    }
}

/// Annotates a matched line with its score.
pub(crate) fn annotate(line: &String, score: i64) -> (out: String)
    requires
        score != i64::MIN,
    ensures
        out@ == line@ + "\t["@ + score_chars(score as int) + "]"@,
{
    let mut out = line.clone();
    out.append("\t[");
    let sc = crate::digits::format_score(score);
    out.append(sc.as_str());
    out.append("]");
    out
}

/// Renders the windows over the lines: every window line prints, matches
/// annotated unless scores are hidden, with a `--` between blocks.
pub fn render_blocks(
    lines: &Vec<String>,
    scores: &Vec<i64>,
    mask: &Vec<bool>,
    hide: bool,
    ws: &Vec<Window>,
) -> (out: Vec<String>)
    requires
        scores@.len() == lines@.len(),
        mask@.len() == lines@.len(),
        forall|wi: int|
            0 <= wi < ws@.len() ==> (#[trigger] ws@[wi]).start <= ws@[wi].end <= lines@.len(),
        forall|k: int| 0 <= k < scores@.len() ==> scores@[k] != i64::MIN,
    ensures
        texts_of(out@) == blocks_output(texts_of(lines@), scores@, mask@, hide, ws@),
{
    let mut out: Vec<String> = Vec::new();
    let mut wi: usize = 0;
    proof {
        assert(texts_of(out@) =~= blocks_output(
            texts_of(lines@),
            scores@,
            mask@,
            hide,
            ws@.take(0),
        ));
    }
    while wi < ws.len()
        invariant
            wi <= ws@.len(),
            scores@.len() == lines@.len(),
            mask@.len() == lines@.len(),
            forall|t: int|
                0 <= t < ws@.len() ==> (#[trigger] ws@[t]).start <= ws@[t].end <= lines@.len(),
            forall|k: int| 0 <= k < scores@.len() ==> scores@[k] != i64::MIN,
            texts_of(out@) == blocks_output(
                texts_of(lines@),
                scores@,
                mask@,
                hide,
                ws@.take(wi as int),
            ),
        decreases ws@.len() - wi,
    {
        if wi > 0 {
            out.push(String::from_str("--"));
            proof {
                assert(texts_of(out@) =~= blocks_output(
                    texts_of(lines@),
                    scores@,
                    mask@,
                    hide,
                    ws@.take(wi as int),
                ) + seq![sep_chars()]);
            }
        }
        let s = ws[wi].start;
        let e = ws[wi].end;
        let ghost mid = texts_of(out@);
        proof {
            assert(texts_of(out@) =~= mid + block_lines(
                texts_of(lines@),
                scores@,
                mask@,
                hide,
                s as int,
                s as int,
            ));
        }
        let mut k: usize = s;
        while k < e
            invariant
                s <= k <= e,
                e <= lines@.len(),
                scores@.len() == lines@.len(),
                mask@.len() == lines@.len(),
                forall|t: int| 0 <= t < scores@.len() ==> scores@[t] != i64::MIN,
                texts_of(out@) == mid + block_lines(
                    texts_of(lines@),
                    scores@,
                    mask@,
                    hide,
                    s as int,
                    k as int,
                ),
            decreases e - k,
        {
            let rendered = if mask[k] && !hide {
                annotate(&lines[k], scores[k])
            } else {
                lines[k].clone()
            };
            proof {
                assert(texts_of(lines@)[k as int] == lines@[k as int]@);
                assert(rendered@ == rendered_line(
                    texts_of(lines@)[k as int],
                    scores@[k as int] as int,
                    mask@[k as int],
                    hide,
                ));
            }
            let ghost prev = out@;
            let ghost rv = rendered;
            out.push(rendered);
            proof {
                lemma_texts_push(prev, rv);
                assert(block_lines(texts_of(lines@), scores@, mask@, hide, s as int, k + 1)
                    =~= block_lines(texts_of(lines@), scores@, mask@, hide, s as int, k as int)
                    + seq![
                    rendered_line(
                        texts_of(lines@)[k as int],
                        scores@[k as int] as int,
                        mask@[k as int],
                        hide,
                    ),
                ]);
                assert(texts_of(out@) =~= mid + block_lines(
                    texts_of(lines@),
                    scores@,
                    mask@,
                    hide,
                    s as int,
                    k + 1,
                ));
            }
            k += 1;
        }
        proof {
            let lv = texts_of(lines@);
            let tk1 = ws@.take(wi + 1);
            assert(tk1.drop_last() =~= ws@.take(wi as int));
            assert(tk1.last() == ws@[wi as int]);
            if wi == 0 {
                assert(blocks_output(lv, scores@, mask@, hide, tk1) == block_lines(
                    lv,
                    scores@,
                    mask@,
                    hide,
                    s as int,
                    e as int,
                ));
                assert(texts_of(out@) =~= blocks_output(lv, scores@, mask@, hide, tk1));
            } else {
                assert(blocks_output(lv, scores@, mask@, hide, tk1) == blocks_output(
                    lv,
                    scores@,
                    mask@,
                    hide,
                    ws@.take(wi as int),
                ) + seq![sep_chars()] + block_lines(lv, scores@, mask@, hide, s as int, e as int));
                assert(texts_of(out@) =~= blocks_output(lv, scores@, mask@, hide, tk1));
            }
        }
        wi += 1;
    }
    proof {
        assert(ws@.take(ws@.len() as int) =~= ws@);
    }
    out
}

} // verus!
