//! Retrieval: prompt assembly for document questions, the retrieval cache's
//! table names and keys, the decisions around the vector store, and the
//! sources footer.
use vstd::prelude::*;
use std::collections::hash_map::DefaultHasher;
use std::hash::Hasher;
use vstd::std_specs::hash::DefaultHasherAdditionalSpecFns;
pub use crate::chunk::{chunk_text, views};
use crate::error::GenieError;
use crate::text::{decimal, digits_value, hex_fixed, law_hex_fixed_roundtrip, pow16, push_decimal, push_hex_fixed};

verus! {

/// The hash that `str`'s `Hash` impl feeds a fresh `DefaultHasher` with `key`:
/// the UTF-8 bytes of `key`, then the byte `0xff`.
pub open spec fn key_hash(key: Seq<char>) -> u64 {
    DefaultHasher::spec_finish(seq![vstd::utf8::encode_utf8(key), seq![0xffu8]])
}

/// The name of the per-document table: `doc_` and the 16 lowercase
/// hexadecimal digits of the key's hash.
pub open spec fn table_name_spec(key: Seq<char>) -> Seq<char> {
    "doc_"@ + hex_fixed(key_hash(key) as nat, 16)
}

/// The per-document table name for a cache key: `doc_` followed by the
/// 16-digit lowercase hexadecimal `DefaultHasher` hash of the key.
pub fn table_name(key: &str) -> (name: String)
    ensures
        name@ == table_name_spec(key@),
{
    let mut h = DefaultHasher::new();
    h.write(key.as_bytes());
    let tail: Vec<u8> = vec![0xffu8];
    assert(tail@ =~= seq![0xffu8]);
    h.write(tail.as_slice());
    assert(h@ =~= seq![vstd::utf8::encode_utf8(key@), seq![0xffu8]]);
    let v = h.finish();
    let mut name = "doc_".to_string();
    push_hex_fixed(&mut name, v, 16);
    name
}

/// A table name is `doc_` and 16 hexadecimal digits (20 characters in all),
/// and those digits read back as the key's hash: equal keys give equal
/// names, and names that differ come from keys whose hashes differ.
pub proof fn law_table_name_shape(key: Seq<char>)
    ensures
        table_name_spec(key).len() == 20,
        table_name_spec(key).subrange(0, 4) == "doc_"@,
        digits_value(table_name_spec(key).subrange(4, 20), 16) == key_hash(key),
{
    reveal_strlit("doc_");
    reveal_with_fuel(pow16, 17);
    assert(pow16(16) == 0x1_0000_0000_0000_0000);
    law_hex_fixed_roundtrip(key_hash(key) as nat, 16);
    let t = table_name_spec(key);
    assert(t.subrange(0, 4) =~= "doc_"@);
    assert(t.subrange(4, 20) =~= hex_fixed(key_hash(key) as nat, 16));
}

/// What is known of a file for its cache signature: its length in bytes,
/// and its modification time in whole seconds since the Unix epoch when the
/// system reports one.
#[derive(Debug)]
pub struct FileMeta {
    pub len: u64,
    pub modified_secs: Option<u64>,
}

/// The signature of a file: `<len>-<mtime>` (the time 0 when unknown), or
/// `0` when the file's metadata could not be read.
pub open spec fn file_signature_spec(meta: Option<FileMeta>) -> Seq<char> {
    match meta {
        Some(m) => {
            let t: nat = match m.modified_secs {
                Some(secs) => secs as nat,
                None => 0,
            };
            decimal(m.len as nat) + "-"@ + decimal(t)
        },
        None => "0"@,
    }
}

/// A signature that changes when the file's length or modification time
/// does: `<len>-<mtime>`, or `0` when the metadata is unavailable.
pub fn file_signature(meta: Option<FileMeta>) -> (sig: String)
    ensures
        sig@ == file_signature_spec(meta),
{
    match meta {
        Some(m) => {
            let t = match m.modified_secs {
                Some(secs) => secs,
                None => 0,
            };
            let mut sig = String::new();
            push_decimal(&mut sig, m.len);
            sig.append("-");
            push_decimal(&mut sig, t);
            sig
        },
        None => "0".to_string(),
    }
}

/// The retrieval cache key: `<source>|<signature>|cs=<chunk size>`.
pub open spec fn cache_key_spec(source: Seq<char>, sig: Seq<char>, chunk_size: nat) -> Seq<char> {
    source + "|"@ + sig + "|cs="@ + decimal(chunk_size)
}

/// The retrieval cache key for a document, its file signature and the chunk
/// size used to split it.
pub fn cache_key(source: &str, sig: &str, chunk_size: usize) -> (key: String)
    ensures
        key@ == cache_key_spec(source@, sig@, chunk_size as nat),
{
    let mut key = source.to_string();
    key.append("|");
    key.append(sig);
    key.append("|cs=");
    push_decimal(&mut key, chunk_size as u64);
    key
}

/// Whether a document is too large to go inline and must go through
/// retrieval: its UTF-8 length exceeds the threshold.
pub fn needs_retrieval(text: &str, threshold: usize) -> (r: bool)
    ensures
        r == (text.len() > threshold),
{
    !(text.len() <= threshold)
}

/// The prompt for a small document, which goes inline.
pub open spec fn inline_prompt_spec(question: Seq<char>, source: Seq<char>, text: Seq<char>) -> Seq<char> {
    question + "\n\nAnalyze the following document (\""@ + source + "\"):\n\n"@ + text
}

/// The prompt for a document small enough to go inline: the question, then
/// the document under its name.
pub fn inline_prompt(question: &str, source: &str, text: &str) -> (p: String)
    ensures
        p@ == inline_prompt_spec(question@, source@, text@),
{
    let mut p = question.to_string();
    p.append("\n\nAnalyze the following document (\"");
    p.append(source);
    p.append("\"):\n\n");
    p.append(text);
    p
}

/// The notice printed before a large document goes through retrieval; the
/// size shown is the document's UTF-8 length.
pub fn large_input_notice(text: &str) -> (n: String)
    ensures
        n@ == "Large input ("@ + decimal(text.len() as nat) + " chars) \u{2014} retrieving relevant chunks via LanceDB..."@,
{
    let mut n = "Large input (".to_string();
    push_decimal(&mut n, text.len() as u64);
    n.append(" chars) \u{2014} retrieving relevant chunks via LanceDB...");
    n
}

/// One excerpt in the retrieval context.
pub open spec fn excerpt_block(source: Seq<char>, chunk: Seq<char>) -> Seq<char> {
    "[source: "@ + source + "]\n"@ + chunk + "\n\n"@
}

/// The retrieval context: each excerpt `(source, chunk)` in order.
pub open spec fn excerpts_context(ex: Seq<(String, String)>) -> Seq<char>
    decreases ex.len(),
{
    if ex.len() == 0 {
        Seq::empty()
    } else {
        excerpts_context(ex.drop_last()) + excerpt_block(ex.last().0@, ex.last().1@)
    }
}

/// The sources of the excerpts, each once, in order of first appearance.
pub open spec fn distinct_sources(ex: Seq<(String, String)>) -> Seq<Seq<char>>
    decreases ex.len(),
{
    if ex.len() == 0 {
        Seq::empty()
    } else {
        let prev = distinct_sources(ex.drop_last());
        if prev.contains(ex.last().0@) {
            prev
        } else {
            prev.push(ex.last().0@)
        }
    }
}

/// The prompt for a large document: the question, then the retrieved
/// excerpts.
pub open spec fn retrieval_prompt_spec(question: Seq<char>, source: Seq<char>, ex: Seq<(String, String)>) -> Seq<char> {
    question + "\n\nUse the following excerpts from \""@ + source + "\" to answer:\n\n"@
        + excerpts_context(ex)
}

/// Whether `v` holds a string equal to `s`.
fn contains_string(v: &Vec<String>, s: &String) -> (r: bool)
    ensures
        r == views(v@).contains(s@),
{
    let mut i: usize = 0;
    while i < v.len()
        invariant
            i <= v.len(),
            forall|j: int| 0 <= j < i ==> v@[j]@ != s@,
        decreases v.len() - i,
    {
        if v[i] == *s {
            assert(views(v@)[i as int] == s@);
            return true;
        }
        i = i + 1;
    }
    assert(!views(v@).contains(s@)) by {
        if views(v@).contains(s@) {
            let j = choose|j: int| 0 <= j < v@.len() && #[trigger] views(v@)[j] == s@;
            assert(v@[j]@ == s@);
        }
    }
    false
}

/// The prompt for a large document and its sources, from the retrieved
/// excerpts `(source, chunk)`: the sources are those of the excerpts, each
/// once, in order of first appearance.
pub fn retrieval_prompt(question: &str, source: &str, excerpts: &Vec<(String, String)>) -> (r: (String, Vec<String>))
    ensures
        r.0@ == retrieval_prompt_spec(question@, source@, excerpts@),
        views(r.1@) == distinct_sources(excerpts@),
{
    let mut ctx = String::new();
    let mut sources: Vec<String> = Vec::new();
    let mut i: usize = 0;
    while i < excerpts.len()
        invariant
            i <= excerpts.len(),
            ctx@ == excerpts_context(excerpts@.take(i as int)),
            views(sources@) == distinct_sources(excerpts@.take(i as int)),
        decreases excerpts.len() - i,
    {
        let ghost before = views(sources@);
        let (src, chunk) = &excerpts[i];
        ctx.append("[source: ");
        ctx.append(src.as_str());
        ctx.append("]\n");
        ctx.append(chunk.as_str());
        ctx.append("\n\n");
        assert(excerpts@.take(i + 1).drop_last() == excerpts@.take(i as int));
        if !contains_string(&sources, src) {
            sources.push(src.clone());
            assert(views(sources@) =~= before.push(src@));
        }
        i = i + 1;
    }
    assert(excerpts@.take(excerpts.len() as int) == excerpts@);
    let mut prompt = question.to_string();
    prompt.append("\n\nUse the following excerpts from \"");
    prompt.append(source);
    prompt.append("\" to answer:\n\n");
    prompt.append(ctx.as_str());
    (prompt, sources)
}

/// Each source once, and exactly the sources of the excerpts.
pub proof fn law_sources_distinct(ex: Seq<(String, String)>)
    ensures
        forall|i: int, j: int|
            0 <= i < j < distinct_sources(ex).len() ==> distinct_sources(ex)[i] != distinct_sources(ex)[j],
        forall|s: Seq<char>|
            distinct_sources(ex).contains(s) <==> exists|k: int| 0 <= k < ex.len() && (#[trigger] ex[k]).0@ == s,
    decreases ex.len(),
{
    if ex.len() > 0 {
        let init = ex.drop_last();
        law_sources_distinct(init);
        let prev = distinct_sources(init);
        let last = ex.last().0@;
        assert forall|s: Seq<char>|
            distinct_sources(ex).contains(s) <==> exists|k: int| 0 <= k < ex.len() && (#[trigger] ex[k]).0@ == s by {
            if distinct_sources(ex).contains(s) {
                if prev.contains(s) {
                    let k = choose|k: int| 0 <= k < init.len() && (#[trigger] init[k]).0@ == s;
                    assert(ex[k] == init[k]);
                } else {
                    assert(s == last);
                    assert(ex[ex.len() - 1].0@ == s);
                }
            }
            if exists|k: int| 0 <= k < ex.len() && (#[trigger] ex[k]).0@ == s {
                let k = choose|k: int| 0 <= k < ex.len() && (#[trigger] ex[k]).0@ == s;
                if k < ex.len() - 1 {
                    assert(init[k] == ex[k]);
                    assert(prev.contains(s));
                    if !prev.contains(last) {
                        assert(distinct_sources(ex) == prev.push(last));
                        let m = choose|m: int| 0 <= m < prev.len() && prev[m] == s;
                        assert(distinct_sources(ex)[m] == s);
                    }
                } else {
                    if !prev.contains(last) {
                        assert(distinct_sources(ex)[prev.len() as int] == last);
                    }
                }
            }
        }
    }
}

/// The lines that list the sources, one `  - <source>` line each.
pub open spec fn source_lines(s: Seq<Seq<char>>) -> Seq<char>
    decreases s.len(),
{
    if s.len() == 0 {
        Seq::empty()
    } else {
        source_lines(s.drop_last()) + "  - "@ + s.last() + "\n"@
    }
}

/// The sources footer: nothing when there are no sources; else a blank
/// line, `Sources:`, and one `  - <source>` line per source.
pub open spec fn sources_footer_spec(s: Seq<Seq<char>>) -> Seq<char> {
    if s.len() == 0 {
        Seq::empty()
    } else {
        "\nSources:\n"@ + source_lines(s)
    }
}

/// The footer printed after an answer, naming its sources.
pub fn sources_footer(sources: &Vec<String>) -> (f: String)
    ensures
        f@ == sources_footer_spec(views(sources@)),
{
    if sources.len() == 0 {
        return String::new();
    }
    let mut lines = String::new();
    let mut i: usize = 0;
    while i < sources.len()
        invariant
            i <= sources.len(),
            lines@ == source_lines(views(sources@).take(i as int)),
        decreases sources.len() - i,
    {
        lines.append("  - ");
        lines.append(sources[i].as_str());
        lines.append("\n");
        assert(views(sources@).take(i + 1).drop_last() == views(sources@).take(i as int));
        i = i + 1;
    }
    assert(views(sources@).take(sources.len() as int) == views(sources@));
    let mut f = "\nSources:\n".to_string();
    f.append(lines.as_str());
    f
}

/// Whether the vector store already holds a table of this name.
pub fn table_exists(existing: &Vec<String>, name: &String) -> (r: bool)
    ensures
        r == views(existing@).contains(name@),
{
    contains_string(existing, name)
}

/// The dimension of the embeddings, from the length of the first vector
/// (none when the embedder returned no vectors); zero is an error.
pub fn embedding_dim(first_len: Option<usize>) -> (r: Result<usize, GenieError>)
    ensures
        match first_len {
            Some(d) if d > 0 => r == Ok::<usize, GenieError>(d),
            _ => r matches Err(GenieError::NoVectors),
        },
{
    let dim = match first_len {
        Some(d) => d,
        None => 0,
    };
    if dim == 0 {
        Err(GenieError::NoVectors)
    } else {
        Ok(dim)
    }
}

/// Appends the rows of one result batch to `out`, as `(source, text)`
/// pairs, row by row. A batch without a `text` column, or else without a
/// `source` column, is an error, and `out` is left as it was.
pub fn append_rows(out: &mut Vec<(String, String)>, texts: Option<&Vec<String>>, sources: Option<&Vec<String>>) -> (r: Result<(), GenieError>)
    requires
        texts is Some && sources is Some ==> texts.unwrap().len() == sources.unwrap().len(),
    ensures
        texts is None ==> (r matches Err(GenieError::MissingColumn(c)) && c@ == "text"@),
        texts is Some && sources is None ==> (r matches Err(GenieError::MissingColumn(c)) && c@
            == "source"@),
        r is Err ==> final(out)@ == old(out)@,
        r is Ok <==> texts is Some && sources is Some,
        r is Ok ==> final(out)@.len() == old(out)@.len() + texts.unwrap().len() && (forall|i: int|
            0 <= i < old(out)@.len() ==> final(out)@[i] == old(out)@[i]) && (forall|i: int|
            0 <= i < texts.unwrap().len() ==> (#[trigger] final(out)@[old(out)@.len() + i]).0@
                == sources.unwrap()@[i]@ && final(out)@[old(out)@.len() + i].1@
                == texts.unwrap()@[i]@),
{
    let t = match texts {
        Some(t) => t,
        None => {
            return Err(GenieError::MissingColumn("text".to_string()));
        },
    };
    let s = match sources {
        Some(s) => s,
        None => {
            return Err(GenieError::MissingColumn("source".to_string()));
        },
    };
    let ghost start = out@;
    let mut i: usize = 0;
    while i < t.len()
        invariant
            i <= t.len() == s.len(),
            out@.len() == start.len() + i,
            forall|k: int| 0 <= k < start.len() ==> out@[k] == start[k],
            forall|k: int|
                0 <= k < i ==> (#[trigger] out@[start.len() + k]).0@ == s@[k]@ && out@[start.len()
                    + k].1@ == t@[k]@,
        decreases t.len() - i,
    {
        out.push((s[i].clone(), t[i].clone()));
        i = i + 1;
    }
    Ok(())
}

/// Where a document question goes: directory mode, which is not written
/// yet, or the document at the given path.
#[derive(Debug)]
pub enum DocumentAsk {
    Directory,
    Document(String),
}

/// Routes a document question: directory mode when `--dir` was given, else
/// the `--doc` path, else the `--txt` path; with none of them it is an error.
pub fn ask_route(has_dir: bool, doc: Option<String>, txt: Option<String>) -> (r: Result<DocumentAsk, GenieError>)
    ensures
        has_dir ==> r matches Ok(DocumentAsk::Directory),
        !has_dir && doc is Some ==> (r matches Ok(DocumentAsk::Document(p)) && p == doc.unwrap()),
        !has_dir && doc is None && txt is Some ==> (r matches Ok(DocumentAsk::Document(p)) && p
            == txt.unwrap()),
        !has_dir && doc is None && txt is None ==> r matches Err(GenieError::NoDocumentPath),
{
    if has_dir {
        return Ok(DocumentAsk::Directory);
    }
    match doc {
        Some(p) => Ok(DocumentAsk::Document(p)),
        None => match txt {
            Some(p) => Ok(DocumentAsk::Document(p)),
            None => Err(GenieError::NoDocumentPath),
        },
    }
}

/// The notice for directory mode, which is not written yet.
pub fn directory_mode_notice() -> (n: String)
    ensures
        n@ == "genie (rust): directory mode (--dir) not yet implemented (RUST_PLAN.md M3)."@,
{
    "genie (rust): directory mode (--dir) not yet implemented (RUST_PLAN.md M3).".to_string()
}

/// The `cache` subcommand, which is not written yet: its notice.
pub fn cache(_action: &str) -> (n: String)
    ensures
        n@ == "genie (rust): cache subcommand not yet implemented (RUST_PLAN.md M3)."@,
{
    "genie (rust): cache subcommand not yet implemented (RUST_PLAN.md M3).".to_string()
}

/// The inline prompt carries the whole document: it is the question, the
/// fixed text around the document's name, and then every character of the
/// document, in order, to the end.
pub proof fn law_inline_prompt_keeps_document(question: Seq<char>, source: Seq<char>, text: Seq<char>)
    ensures
        ({
            let p = inline_prompt_spec(question, source, text);
            let head = "\n\nAnalyze the following document (\""@;
            let tail = "\"):\n\n"@;
            &&& p.len() == question.len() + head.len() + source.len() + tail.len() + text.len()
            &&& p.subrange(0, question.len() as int) == question
            &&& p.subrange((question.len() + head.len()) as int, (question.len() + head.len() + source.len()) as int)
                == source
            &&& p.subrange(p.len() - text.len(), p.len() as int) == text
        }),
{
    let p = inline_prompt_spec(question, source, text);
    let head = "\n\nAnalyze the following document (\""@;
    let tail = "\"):\n\n"@;
    assert(p == question + head + source + tail + text);
    assert(p.subrange(0, question.len() as int) =~= question);
    assert(p.subrange((question.len() + head.len()) as int, (question.len() + head.len() + source.len()) as int) =~= source);
    assert(p.subrange(p.len() - text.len(), p.len() as int) =~= text);
}

/// The retrieval prompt is the question and its header, then one block per
/// excerpt, in order, for every excerpt: with no excerpts it is the header
/// alone, and one more excerpt adds exactly its block
/// `[source: <source>]\n<chunk>\n\n` at the end.
pub proof fn law_retrieval_prompt_blocks(question: Seq<char>, source: Seq<char>, ex: Seq<(String, String)>, e: (String, String))
    ensures
        retrieval_prompt_spec(question, source, Seq::empty()) == question
            + "\n\nUse the following excerpts from \""@ + source + "\" to answer:\n\n"@,
        retrieval_prompt_spec(question, source, ex.push(e)) == retrieval_prompt_spec(question, source, ex)
            + "[source: "@ + e.0@ + "]\n"@ + e.1@ + "\n\n"@,
{
    assert(excerpts_context(Seq::<(String, String)>::empty()) == Seq::<char>::empty());
    assert(ex.push(e).drop_last() == ex);
    assert(ex.push(e).last() == e);
    let h = question + "\n\nUse the following excerpts from \""@ + source + "\" to answer:\n\n"@;
    assert(h + Seq::<char>::empty() =~= h);
    let b = "[source: "@ + e.0@ + "]\n"@ + e.1@ + "\n\n"@;
    assert(h + (excerpts_context(ex) + b) =~= h + excerpts_context(ex) + "[source: "@ + e.0@ + "]\n"@ + e.1@ + "\n\n"@);
}

/// The footer is empty exactly when there are no sources. One source gives
/// `\nSources:\n  - <source>\n`, and each further source adds its own
/// `  - <source>\n` line at the end.
pub proof fn law_sources_footer_lines(s: Seq<Seq<char>>, x: Seq<char>)
    ensures
        sources_footer_spec(Seq::empty()) == Seq::<char>::empty(),
        sources_footer_spec(seq![x]) == "\nSources:\n  - "@ + x + "\n"@,
        s.len() > 0 ==> sources_footer_spec(s.push(x)) == sources_footer_spec(s) + "  - "@ + x + "\n"@,
        s.len() > 0 ==> sources_footer_spec(s).len() > 0,
{
    let one = seq![x];
    assert(one.drop_last() =~= Seq::<Seq<char>>::empty());
    assert(source_lines(Seq::<Seq<char>>::empty()) == Seq::<char>::empty());
    assert(Seq::<char>::empty() + "  - "@ + x + "\n"@ =~= "  - "@ + x + "\n"@);
    assert("\nSources:\n"@ + ("  - "@ + x + "\n"@) =~= "\nSources:\n  - "@ + x + "\n"@) by {
        reveal_strlit("\nSources:\n");
        reveal_strlit("  - ");
        reveal_strlit("\nSources:\n  - ");
    }
    if s.len() > 0 {
        assert(s.push(x).drop_last() == s);
        assert("\nSources:\n"@ + (source_lines(s) + "  - "@ + x + "\n"@) =~= "\nSources:\n"@ + source_lines(s) + "  - "@ + x + "\n"@);
        reveal_strlit("\nSources:\n");
    }
}

} // verus!
