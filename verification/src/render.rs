//! The server renderer: resolves the path, splits the document template at
//! the opening body marker, renders the view with a fresh registry, and
//! assembles the ordered chunk stream — prologue, the view's fragments in
//! render order, the serialized registry payload, epilogue.

use vstd::prelude::*;

use crate::codec::{enc_registry, serialize};
use crate::registry::{entry_views, Registry};
use crate::route::{route_of, RouteTag};
use crate::view::{spec_prepared_ip_key, spec_server_only_leaf, spec_view_frags, server_view};

verus! {

/// Failure modes of the server render pipeline.
#[derive(PartialEq, Eq, Structural, Clone, Copy, Debug)]
pub enum RenderError {
    /// The document template holds no opening body marker.
    TemplateMalformed,
}

/// One emitted piece of the response stream: an HTML fragment, or the
/// registry payload at the point where the client locates it.
#[derive(Debug)]
pub enum Chunk {
    Html(String),
    StatePayload(Vec<u8>),
}

/// The mathematical shape of one chunk.
pub enum ChunkView {
    Html(Seq<char>),
    StatePayload(Seq<u8>),
}

impl View for Chunk {
    type V = ChunkView;

    open spec fn view(&self) -> ChunkView {
        match self {
            Chunk::Html(s) => ChunkView::Html(s@),
            Chunk::StatePayload(b) => ChunkView::StatePayload(b@),
        }
    }
}

/// The shapes of a sequence of chunks.
pub open spec fn chunk_views(s: Seq<Chunk>) -> Seq<ChunkView> {
    s.map_values(|c: Chunk| c@)
}

/// Each fragment as an HTML chunk shape.
pub open spec fn html_chunks(fs: Seq<Seq<char>>) -> Seq<ChunkView> {
    fs.map_values(|f: Seq<char>| ChunkView::Html(f))
}

/// Appending a fragment appends its chunk shape.
pub proof fn lemma_html_chunks_push(fs: Seq<Seq<char>>, f: Seq<char>)
    ensures
        html_chunks(fs.push(f)) == html_chunks(fs).push(ChunkView::Html(f)),
{
    assert(html_chunks(fs.push(f)) =~= html_chunks(fs).push(ChunkView::Html(f)));
}

/// The opening body marker that splits the template.
pub open spec fn spec_marker() -> Seq<char> {
    "<body>"@
}

/// The marker occurs in `s` at position `i`.
pub open spec fn marker_at(s: Seq<char>, i: int) -> bool {
    0 <= i && i + 6 <= s.len() && s.subrange(i, i + 6) == spec_marker()
}

/// Compares six characters of `s` from `i` against the marker.
fn marker_matches(s: &str, i: usize) -> (r: bool)
    requires
        i + 6 <= s@.len(),
        s@.len() <= usize::MAX,
    ensures
        r == marker_at(s@, i as int),
{
    let m = "<body>";
    proof {
        reveal_strlit("<body>");
    }
    let mut j: usize = 0;
    while j < 6
        invariant
            j <= 6,
            i + 6 <= s@.len(),
            s@.len() <= usize::MAX,
            m@ == spec_marker(),
            m@.len() == 6,
            forall|t: int| 0 <= t < j ==> s@[i + t] == spec_marker()[t],
        decreases 6 - j,
    {
        let c = s.get_char(i + j);
        let mc = m.get_char(j);
        if c != mc {
            proof {
                assert(s@.subrange(i as int, i as int + 6)[j as int] != spec_marker()[j as int]);
            }
            return false;
        }
        j = j + 1;
    }
    proof {
        assert(s@.subrange(i as int, i as int + 6) =~= spec_marker());
    }
    true
}

/// Splits the template at the first opening body marker: the prologue keeps
/// the marker, the epilogue is everything after it.  Fails with
/// `TemplateMalformed` exactly when the template holds no marker.
pub fn split_template(template: &str) -> (r: Result<(String, String), RenderError>)
    ensures
        match r {
            Ok((prologue, epilogue)) => exists|i: int|
                {
                    &&& #[trigger] marker_at(template@, i)
                    &&& (forall|j: int| 0 <= j < i ==> !marker_at(template@, j))
                    &&& prologue@ == template@.subrange(0, i + 6)
                    &&& epilogue@ == template@.subrange(i + 6, template@.len() as int)
                },
            Err(e) => e == RenderError::TemplateMalformed && (forall|i: int|
                !marker_at(template@, i)),
        },
{
    let n = s_len(template);
    let mut i: usize = 0;
    if n < 6 {
        proof {
            assert(forall|t: int| !marker_at(template@, t));
        }
        return Err(RenderError::TemplateMalformed);
    }
    while i <= n - 6
        invariant
            n == template@.len(),
            n >= 6,
            i <= n,
            forall|j: int| 0 <= j < i ==> !marker_at(template@, j),
        decreases n - i,
    {
        if marker_matches(template, i) {
            let prologue = template.substring_char(0, i + 6);
            let epilogue = template.substring_char(i + 6, n);
            return Ok((String::from_str(prologue), String::from_str(epilogue)));
        }
        i = i + 1;
    }
    proof {
        assert(forall|t: int| t + 6 > template@.len() ==> !marker_at(template@, t));
    }
    Err(RenderError::TemplateMalformed)
}

/// The character count of a string slice.
fn s_len(s: &str) -> (n: usize)
    ensures
        n == s@.len(),
{
    s.unicode_len()
}

/// The registry one server render populates: the single prepared-state leaf
/// under its derived key.
pub open spec fn spec_render_registry(producer_value: Seq<char>) -> Seq<(Seq<char>, Seq<char>)> {
    seq![(spec_prepared_ip_key(), producer_value)]
}

/// The chunk stream of one server render: the prologue, the view fragments
/// in render order, the registry payload, the epilogue.
pub open spec fn spec_document(
    tag: RouteTag,
    q: Seq<(Seq<char>, Seq<char>)>,
    producer_value: Seq<char>,
    prologue: Seq<char>,
    epilogue: Seq<char>,
) -> Seq<ChunkView> {
    seq![ChunkView::Html(prologue)] + html_chunks(
        spec_view_frags(tag, q, producer_value, spec_server_only_leaf()),
    ) + seq![ChunkView::StatePayload(enc_registry(spec_render_registry(producer_value)))] + seq![
        ChunkView::Html(epilogue),
    ]
}

/// Renders the complete document for one request.  The chunk stream starts
/// with the prologue, carries the view output in render order, then the
/// serialized registry, and ends with the epilogue; it fails with
/// `TemplateMalformed` exactly when the template holds no body marker.
pub fn render_document(
    path: &str,
    q: &Vec<(String, String)>,
    template: &str,
    producer_value: &String,
) -> (r: Result<Vec<Chunk>, RenderError>)
    ensures
        match r {
            Ok(chunks) => exists|i: int|
                {
                    &&& #[trigger] marker_at(template@, i)
                    &&& chunk_views(chunks@) == spec_document(
                        route_of(path@),
                        entry_views(q@),
                        producer_value@,
                        template@.subrange(0, i + 6),
                        template@.subrange(i + 6, template@.len() as int),
                    )
                },
            Err(e) => e == RenderError::TemplateMalformed && (forall|i: int|
                !marker_at(template@, i)),
        },
{
    let tag = crate::route::resolve(path);
    let (prologue, epilogue) = match split_template(template) {
        Ok(p) => p,
        Err(e) => {
            return Err(e);
        },
    };
    let mut reg = Registry::begin_render();
    let frags = server_view(tag, q, producer_value, &mut reg);
    proof {
        assert(reg@ =~= spec_render_registry(producer_value@));
    }
    let payload = serialize(&reg);
    let mut chunks: Vec<Chunk> = Vec::new();
    let ghost pro = prologue@;
    let ghost epi = epilogue@;
    chunks.push(Chunk::Html(prologue));
    let mut fi: usize = 0;
    let nf = frags.len();
    proof {
        assert(crate::frag_views(frags@).take(0) =~= Seq::<Seq<char>>::empty());
        assert(html_chunks(Seq::<Seq<char>>::empty()) =~= Seq::<ChunkView>::empty());
        assert(chunk_views(chunks@) =~= seq![ChunkView::Html(pro)] + html_chunks(
            crate::frag_views(frags@).take(0),
        ));
    }
    while fi < nf
        invariant
            fi <= nf,
            nf == frags@.len(),
            pro == prologue@,
            chunks@.len() == 1 + fi,
            chunk_views(chunks@) == seq![ChunkView::Html(pro)] + html_chunks(
                crate::frag_views(frags@).take(fi as int),
            ),
        decreases nf - fi,
    {
        let f = frag_at(&frags, fi);
        let ghost before = chunks@;
        chunks.push(Chunk::Html(f));
        proof {
            let fv = crate::frag_views(frags@);
            assert(chunk_views(chunks@) =~= chunk_views(before).push(ChunkView::Html(f@)));
            assert(fv.take(fi as int + 1) =~= fv.take(fi as int).push(fv[fi as int]));
            lemma_html_chunks_push(fv.take(fi as int), fv[fi as int]);
            assert((seq![ChunkView::Html(pro)] + html_chunks(fv.take(fi as int))).push(
                ChunkView::Html(fv[fi as int]),
            ) =~= seq![ChunkView::Html(pro)] + html_chunks(fv.take(fi as int)).push(
                ChunkView::Html(fv[fi as int]),
            ));
        }
        fi = fi + 1;
    }
    let ghost after_frags = chunks@;
    chunks.push(Chunk::StatePayload(payload));
    let ghost after_payload = chunks@;
    chunks.push(Chunk::Html(epilogue));
    proof {
        let fv = crate::frag_views(frags@);
        assert(fv.take(nf as int) =~= fv);
        assert(chunk_views(after_payload) =~= chunk_views(after_frags).push(
            ChunkView::StatePayload(payload@),
        ));
        assert(chunk_views(chunks@) =~= chunk_views(after_payload).push(ChunkView::Html(epi)));
        assert(chunk_views(chunks@) =~= seq![ChunkView::Html(pro)] + html_chunks(fv) + seq![
            ChunkView::StatePayload(enc_registry(spec_render_registry(producer_value@))),
        ] + seq![ChunkView::Html(epi)]);
    }
    Ok(chunks)
}

/// Prologue/epilogue integrity: the emitted chunk stream starts with the
/// prologue, carries the nine view fragments in render order, holds the
/// registry payload just before the end, and ends with the epilogue.
pub proof fn lemma_document_shape(
    tag: RouteTag,
    q: Seq<(Seq<char>, Seq<char>)>,
    producer_value: Seq<char>,
    prologue: Seq<char>,
    epilogue: Seq<char>,
)
    ensures
        spec_document(tag, q, producer_value, prologue, epilogue).len() == 12,
        spec_document(tag, q, producer_value, prologue, epilogue)[0] == ChunkView::Html(prologue),
        forall|k: int|
            0 <= k < 9 ==> spec_document(tag, q, producer_value, prologue, epilogue)[1 + k]
                == ChunkView::Html(
                #[trigger] spec_view_frags(tag, q, producer_value, spec_server_only_leaf())[k],
            ),
        spec_document(tag, q, producer_value, prologue, epilogue)[10] == ChunkView::StatePayload(
            enc_registry(spec_render_registry(producer_value)),
        ),
        spec_document(tag, q, producer_value, prologue, epilogue)[11] == ChunkView::Html(epilogue),
{
    let frags = spec_view_frags(tag, q, producer_value, spec_server_only_leaf());
    assert(frags.len() == 9);
    assert(html_chunks(frags).len() == 9);
    assert(forall|k: int| 0 <= k < 9 ==> html_chunks(frags)[k] == ChunkView::Html(#[trigger] frags[k]));
}

/// A copy of the fragment at position `i`.
fn frag_at(frags: &Vec<String>, i: usize) -> (f: String)
    requires
        i < frags@.len(),
    ensures
        f@ == crate::frag_views(frags@)[i as int],
{
    frags[i].clone()
}

} // verus!
