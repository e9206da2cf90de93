use vstd::prelude::*;
use vstd::string::*;
use crate::query::scan_char;

verus! {

/// Default number of targets sent to the remote server in one request.
pub const DEFAULT_BATCH_SIZE: usize = 100;

/// Number of messages fetched from the remote server in one request.
pub const FETCH_BATCH_SIZE: usize = 50;

/// The chunks laid end to end.
pub open spec fn concat_chunks(c: Seq<Seq<u32>>) -> Seq<u32>
    decreases c.len(),
{
    if c.len() == 0 {
        seq![]
    } else {
        concat_chunks(c.drop_last()) + c.last()
    }
}

pub open spec fn chunks_model(v: Seq<Vec<u32>>) -> Seq<Seq<u32>> {
    v.map_values(|c: Vec<u32>| c@)
}

/// Splits `uids` into consecutive chunks of `batch_size`, the last one possibly shorter.
pub fn chunk_uids(uids: &[u32], batch_size: usize) -> (r: Vec<Vec<u32>>)
    requires
        batch_size > 0,
    ensures
        concat_chunks(chunks_model(r@)) == uids@,
        forall|i: int| 0 <= i < r@.len() ==> 0 < (#[trigger] r@[i])@.len() <= batch_size,
        forall|i: int| 0 <= i < r@.len() - 1 ==> (#[trigger] r@[i])@.len() == batch_size,
{
    let n = uids.len();
    let mut out: Vec<Vec<u32>> = Vec::new();
    let mut i: usize = 0;
    while i < n
        invariant
            n == uids@.len(),
            batch_size > 0,
            i <= n,
            concat_chunks(chunks_model(out@)) == uids@.subrange(0, i as int),
            forall|k: int| 0 <= k < out@.len() ==> 0 < (#[trigger] out@[k])@.len() <= batch_size,
            forall|k: int| 0 <= k < out@.len() - 1 ==> (#[trigger] out@[k])@.len() == batch_size,
            out@.len() > 0 && i < n ==> out@[out@.len() - 1]@.len() == batch_size,
        decreases n - i,
    {
        let end: usize = if n - i > batch_size {
            i + batch_size
        } else {
            n
        };
        let mut chunk: Vec<u32> = Vec::new();
        let mut j: usize = i;
        while j < end
            invariant
                i <= j <= end,
                end <= n,
                n == uids@.len(),
                chunk@ == uids@.subrange(i as int, j as int),
            decreases end - j,
        {
            chunk.push(uids[j]);
            assert(chunk@ =~= uids@.subrange(i as int, j + 1));
            j = j + 1;
        }
        let ghost before = out@;
        out.push(chunk);
        proof {
            assert(chunks_model(out@).drop_last() =~= chunks_model(before));
            assert(uids@.subrange(0, end as int) =~= uids@.subrange(0, i as int) + uids@.subrange(
                i as int,
                end as int,
            ));
        }
        i = end;
    }
    out
}

/// `s` cut to at most `max_width` characters; a cut string ends in `...` when there
/// is room for it.
pub open spec fn truncate_spec(s: Seq<char>, max_width: int) -> Seq<char> {
    if s.len() <= max_width {
        s
    } else if max_width <= 3 {
        s.subrange(0, max_width)
    } else {
        s.subrange(0, max_width - 3) + "..."@
    }
}

/// Cuts `s` to at most `max_width` characters for display.
pub fn truncate(s: &str, max_width: usize) -> (r: String)
    ensures
        r@ == truncate_spec(s@, max_width as int),
{
    let n = s.unicode_len();
    if n <= max_width {
        s.to_owned()
    } else if max_width <= 3 {
        s.substring_char(0, max_width).to_owned()
    } else {
        let mut t = s.substring_char(0, max_width - 3).to_owned();
        t.append("...");
        t
    }
}

/// `s` with every non-overlapping occurrence of `p`, scanning from the left, replaced by `r`.
pub open spec fn replace_spec(s: Seq<char>, p: Seq<char>, r: Seq<char>) -> Seq<char>
    decreases s.len(),
{
    if p.len() == 0 || s.len() < p.len() {
        s
    } else if s.subrange(0, p.len() as int) == p {
        r + replace_spec(s.subrange(p.len() as int, s.len() as int), p, r)
    } else {
        seq![s[0]] + replace_spec(s.drop_first(), p, r)
    }
}

fn matches_at(s: &str, n: usize, i: usize, p: &str, m: usize) -> (r: bool)
    requires
        n == s@.len(),
        m == p@.len(),
        i <= n,
    ensures
        r == (i + m <= n && s@.subrange(i as int, i + m) == p@),
{
    if n - i < m {
        return false;
    }
    let mut k: usize = 0;
    while k < m
        invariant
            n == s@.len(),
            m == p@.len(),
            i + m <= n,
            k <= m,
            forall|j: int| 0 <= j < k ==> s@[i + j] == p@[j],
        decreases m - k,
    {
        if s.get_char(i + k) != p.get_char(k) {
            assert(s@.subrange(i as int, i + m)[k as int] != p@[k as int]);
            return false;
        }
        k = k + 1;
    }
    assert(s@.subrange(i as int, i + m) =~= p@);
    true
}

/// Replaces every occurrence of the non-empty `p` in `s` by `r`, scanning from the left.
pub fn replace_all(s: &str, p: &str, r: &str) -> (out: String)
    requires
        p@.len() > 0,
    ensures
        out@ == replace_spec(s@, p@, r@),
{
    let n = s.unicode_len();
    let m = p.unicode_len();
    let mut out = String::new();
    let mut i: usize = 0;
    proof {
        assert(s@.subrange(0, n as int) =~= s@);
        assert(out@ + replace_spec(s@, p@, r@) =~= replace_spec(s@, p@, r@));
    }
    while i < n
        invariant
            n == s@.len(),
            m == p@.len(),
            m > 0,
            i <= n,
            out@ + replace_spec(s@.subrange(i as int, n as int), p@, r@) == replace_spec(
                s@,
                p@,
                r@,
            ),
        decreases n - i,
    {
        let ghost rest = s@.subrange(i as int, n as int);
        let ghost before = out@;
        if matches_at(s, n, i, p, m) {
            proof {
                assert(rest.subrange(0, m as int) =~= s@.subrange(i as int, i + m));
                assert(rest.subrange(m as int, rest.len() as int) =~= s@.subrange(i + m, n as int));
            }
            out.append(r);
            proof {
                assert(out@ + replace_spec(s@.subrange(i + m, n as int), p@, r@) =~= before + (r@
                    + replace_spec(s@.subrange(i + m, n as int), p@, r@)));
            }
            i = i + m;
        } else {
            let one = s.substring_char(i, i + 1);
            out.append(one);
            proof {
                assert(one@ =~= seq![rest[0]]);
                assert(rest.drop_first() =~= s@.subrange(i + 1, n as int));
                if rest.len() >= m {
                    assert(rest.subrange(0, m as int) =~= s@.subrange(i as int, i + m));
                } else {
                    assert(replace_spec(rest.drop_first(), p@, r@) == rest.drop_first());
                    assert(rest =~= seq![rest[0]] + rest.drop_first());
                }
                assert(out@ + replace_spec(s@.subrange(i + 1, n as int), p@, r@) =~= before + (seq![
                    rest[0],
                ] + replace_spec(rest.drop_first(), p@, r@)));
            }
            i = i + 1;
        }
    }
    proof {
        assert(s@.subrange(n as int, n as int) =~= Seq::<char>::empty());
        assert(out@ + Seq::<char>::empty() =~= out@);
    }
    out
}

/// What is left of the text between two `<`: everything after its first `>`, or all of
/// it when it has none.
pub open spec fn after_tag(piece: Seq<char>) -> Seq<char> {
    let k = scan_char(piece, '>', 0);
    if k < piece.len() {
        piece.subrange(k + 1, piece.len() as int)
    } else {
        piece
    }
}

/// Text emitted so far, and the piece since the last `<`.
pub open spec fn tag_scan(s: Seq<char>) -> (Seq<char>, Seq<char>)
    decreases s.len(),
{
    if s.len() == 0 {
        (seq![], seq![])
    } else {
        let (out, piece) = tag_scan(s.drop_last());
        if s.last() == '<' {
            (out + after_tag(piece), seq![])
        } else {
            (out, piece.push(s.last()))
        }
    }
}

/// `s` split at each `<`, each piece cut after its first `>`, the pieces joined again.
pub open spec fn strip_tags_spec(s: Seq<char>) -> Seq<char> {
    let (out, piece) = tag_scan(s);
    out + after_tag(piece)
}

fn after_tag_exec(piece: &str) -> (r: &str)
    ensures
        r@ == after_tag(piece@),
{
    let n = piece.unicode_len();
    let mut k: usize = 0;
    while k < n
        invariant
            n == piece@.len(),
            k <= n,
            scan_char(piece@, '>', 0) == scan_char(piece@, '>', k as int),
        ensures
            k <= n,
            scan_char(piece@, '>', 0) == k,
        decreases n - k,
    {
        if piece.get_char(k) == '>' {
            break;
        }
        k = k + 1;
    }
    if k < n {
        piece.substring_char(k + 1, n)
    } else {
        piece
    }
}

/// Drops the markup of `s` as `strip_tags_spec` describes.
pub fn strip_tags(s: &str) -> (r: String)
    ensures
        r@ == strip_tags_spec(s@),
{
    let n = s.unicode_len();
    let mut out = String::new();
    let mut piece = String::new();
    let mut i: usize = 0;
    while i < n
        invariant
            n == s@.len(),
            i <= n,
            (out@, piece@) == tag_scan(s@.subrange(0, i as int)),
        decreases n - i,
    {
        proof {
            assert(s@.subrange(0, i + 1).drop_last() =~= s@.subrange(0, i as int));
        }
        let c = s.get_char(i);
        if c == '<' {
            out.append(after_tag_exec(piece.as_str()));
            piece = String::new();
        } else {
            let one = s.substring_char(i, i + 1);
            piece.append(one);
            assert(one@ =~= seq![c]);
        }
        i = i + 1;
    }
    proof {
        assert(s@.subrange(0, n as int) =~= s@);
    }
    out.append(after_tag_exec(piece.as_str()));
    out
}

/// Plain text of a simple HTML body: line breaks and paragraph ends become newlines,
/// then the markup is dropped.
pub open spec fn html_text_spec(html: Seq<char>) -> Seq<char> {
    strip_tags_spec(
        replace_spec(
            replace_spec(
                replace_spec(replace_spec(html, "<br>"@, "\n"@), "<br/>"@, "\n"@),
                "<br />"@,
                "\n"@,
            ),
            "</p>"@,
            "\n\n"@,
        ),
    )
}

/// Plain text of a simple HTML body, for showing a message in a terminal.
pub fn basic_html_to_text(html: &str) -> (r: String)
    ensures
        r@ == html_text_spec(html@),
{
    proof {
        reveal_strlit("<br>");
        reveal_strlit("<br/>");
        reveal_strlit("<br />");
        reveal_strlit("</p>");
    }
    let a = replace_all(html, "<br>", "\n");
    let b = replace_all(a.as_str(), "<br/>", "\n");
    let c = replace_all(b.as_str(), "<br />", "\n");
    let d = replace_all(c.as_str(), "</p>", "\n\n");
    strip_tags(d.as_str())
}

} // verus!
