//! Reference rewriting: every `href` or `src` attribute value in a piece of
//! markup is replaced by its absolute locator, and nothing else is touched.
//!
//! The markup is modelled by its UTF-8 bytes, since the references are found
//! by byte offsets; an attribute value and a path are modelled by their
//! characters.
use vstd::prelude::*;
use vstd::string::*;
use vstd::utf8::*;
use regex::Regex;
use url::Url;
use crate::normalize;
use crate::normalize::normalize_sync;
use crate::text::{chars_of, find_char, index_of};

verus! {

/// The place of an attribute value in the markup: byte offsets, `end` excluded.
#[derive(Debug, Clone, Copy, PartialEq, Eq, Structural)]
pub struct Span {
    pub start: usize,
    pub end: usize,
}

/// The UTF-8 bytes of a text.
pub open spec fn bytes_of(text: Seq<char>) -> Seq<u8> {
    encode_utf8(text)
}

/// The places of the reference attribute values in `html`, in the order in
/// which they stand: for each match of ` (href|src)="([^"]*?)"`, found from
/// left to right without overlap, the span of its second group.
pub uninterp spec fn reference_spans(html: Seq<char>) -> Seq<Span>;

/// Spans that can be cut out of `bytes` one after the other: each lies within
/// `bytes`, starts and ends between two characters, and ends before the next
/// one starts.
pub open spec fn well_placed(bytes: Seq<u8>, spans: Seq<Span>) -> bool {
    &&& forall|i: int|
        0 <= i < spans.len() ==> {
            &&& (#[trigger] spans[i]).start <= spans[i].end <= bytes.len()
            &&& is_char_boundary(bytes, spans[i].start as int)
            &&& is_char_boundary(bytes, spans[i].end as int)
        }
    &&& forall|i: int, j: int|
        0 <= i < j < spans.len() ==> (#[trigger] spans[i]).end <= (#[trigger] spans[j]).start
}

/// Runs the pattern ` (href|src)="([^"]*?)"` over `html` with
/// `regex::Regex::captures_iter` and hands back the span of the second group
/// of each match.
///
/// Believed of the regex crate: the matches come from left to right and do
/// not overlap, a group lies within its match, and the offsets of a match
/// satisfy `start <= end`, lie within the text and fall between characters.
#[verifier::external_body]
fn find_reference_spans(html: &str) -> (spans: Vec<Span>)
    ensures
        spans@ == reference_spans(html@),
        well_placed(bytes_of(html@), spans@),
{
    let pattern = Regex::new(r#" (href|src)="([^"]*?)""#).unwrap();
    pattern.captures_iter(html).map(
        |found| {
            let value = found.get(2).unwrap();
            Span { start: value.start(), end: value.end() }
        },
    ).collect()
}

/// The characters that stand at `span` in `html`.
pub open spec fn value_at(html: Seq<char>, span: Span) -> Seq<char> {
    decode_utf8(bytes_of(html).subrange(span.start as int, span.end as int))
}

/// The start of span `i`, or the end of the text where there is no span `i`.
pub open spec fn start_or_end(bytes: Seq<u8>, spans: Seq<Span>, i: int) -> int {
    if 0 <= i < spans.len() {
        spans[i].start as int
    } else {
        bytes.len() as int
    }
}

/// What the rewritten markup holds from the start of span `i` on, where
/// `replacements` holds the replacement of span `i` and of each span after
/// it: each replacement, followed by the bytes of the markup up to the next
/// span.
pub open spec fn rewritten_from(
    bytes: Seq<u8>,
    spans: Seq<Span>,
    replacements: Seq<Seq<u8>>,
    i: int,
) -> Seq<u8>
    decreases replacements.len(),
{
    if replacements.len() > 0 {
        replacements[0] + bytes.subrange(spans[i].end as int, start_or_end(bytes, spans, i + 1))
            + rewritten_from(bytes, spans, replacements.drop_first(), i + 1)
    } else {
        Seq::empty()
    }
}

/// The rewritten markup: the bytes of the markup with span `i` replaced by
/// `replacements[i]`, for each span.
pub open spec fn rewritten(bytes: Seq<u8>, spans: Seq<Span>, replacements: Seq<Seq<u8>>) -> Seq<
    u8,
> {
    bytes.subrange(0, start_or_end(bytes, spans, 0)) + rewritten_from(bytes, spans, replacements, 0)
}

/// The bytes of two texts, one after the other, are the bytes of their
/// concatenation.
pub proof fn lemma_bytes_of_concat(a: Seq<char>, b: Seq<char>)
    ensures
        bytes_of(a + b) == bytes_of(a) + bytes_of(b),
    decreases a.len(),
{
    if a.len() == 0 {
        assert(a + b == b);
        assert(bytes_of(a) + bytes_of(b) == bytes_of(b));
    } else {
        lemma_bytes_of_concat(a.drop_first(), b);
        assert((a + b).drop_first() == a.drop_first() + b);
        assert((a + b)[0] == a[0]);
        assert(bytes_of(a + b) == encode_scalar(a[0] as u32) + bytes_of(a.drop_first() + b));
        assert(bytes_of(a) == encode_scalar(a[0] as u32) + bytes_of(a.drop_first()));
    }
}

/// A boundary of a text is a boundary of each prefix that reaches it.
proof fn lemma_boundary_in_prefix(bytes: Seq<u8>, a: int, b: int)
    requires
        valid_utf8(bytes),
        0 <= a <= b <= bytes.len(),
        is_char_boundary(bytes, a),
        is_char_boundary(bytes, b),
    ensures
        valid_utf8(bytes.subrange(0, b)),
        is_char_boundary(bytes.subrange(0, b), a),
{
    valid_utf8_split(bytes, b);
    let head = bytes.subrange(0, b);
    if a == b {
        is_char_boundary_start_end_of_seq(head);
    } else {
        is_char_boundary_iff_not_is_continuation_byte(bytes, a);
        is_char_boundary_iff_not_is_continuation_byte(head, a);
    }
}

/// The part of `text` between two byte offsets that fall between characters.
fn slice<'a>(text: &'a str, from: usize, to: usize) -> (res: &'a str)
    requires
        from <= to <= bytes_of(text@).len(),
        is_char_boundary(bytes_of(text@), from as int),
        is_char_boundary(bytes_of(text@), to as int),
    ensures
        bytes_of(res@) == bytes_of(text@).subrange(from as int, to as int),
        res@ == decode_utf8(bytes_of(text@).subrange(from as int, to as int)),
{
    proof {
        encode_utf8_valid_utf8(text@);
        lemma_boundary_in_prefix(bytes_of(text@), from as int, to as int);
    }
    let (head, _) = text.split_at(to);
    let (_, res) = head.split_at(from);
    proof {
        assert(bytes_of(res@) == bytes_of(text@).subrange(from as int, to as int));
        encode_utf8_decode_utf8(res@);
    }
    res
}

/// Puts `piece` in front of what `buffer` holds.
fn prepend(buffer: &mut String, piece: &str)
    ensures
        final(buffer)@ == piece@ + old(buffer)@,
{
    let mut out = piece.to_owned();
    out.append(buffer.as_str());
    *buffer = out;
}

/// How a reference was told apart.
#[derive(Debug, Clone, Copy, PartialEq, Eq, Structural)]
pub enum ReferenceKind {
    /// A file of the corpus, given by a relative path.
    InternalFile,
    /// An absolute locator that was there already.
    External,
    /// No locator could be given. A conversion that succeeds holds none of
    /// this kind.
    Unresolved,
}

/// A reference found in a document's markup.
#[derive(Debug, Clone, PartialEq, Eq)]
pub struct Reference {
    /// The attribute value as it stood in the markup.
    pub raw: String,
    /// The absolute locator that replaced it.
    pub locator: String,
    pub kind: ReferenceKind,
}

/// Why a reference could not be resolved.
#[derive(Debug, Clone, PartialEq, Eq)]
pub enum Error {
    /// The normalized path, which has no `file://` locator.
    UrlCreationFailed(String),
    /// The path that the reference resolves to, at which nothing exists.
    FileNotFound(String),
    /// The path that the reference resolves to, and why the file system
    /// could not normalize it.
    CanonicalizationFailed(String, String),
    /// The raw value, which holds a `:` and is no absolute locator, and the
    /// parser's message.
    UrlParsingFailed(String, String),
}

/// Rewritten markup and the references that were found in it, in the order in
/// which they stand in the markup.
#[derive(Debug, Clone, PartialEq, Eq)]
pub struct ConvertedUrls {
    pub html: String,
    pub urls: Vec<Reference>,
}

/// What `url::Url::parse` makes of `value`: the serialization of the locator,
/// or the message of the parse error.
pub uninterp spec fn parsed_locator(value: Seq<char>) -> Result<Seq<char>, Seq<char>>;

/// Parses `value` with `url::Url::parse` and hands back the locator's
/// serialization, or the message of the error.
#[verifier::external_body]
fn parse_locator(value: &str) -> (res: Result<String, String>)
    ensures
        match res {
            Ok(locator) => parsed_locator(value@) == Ok::<Seq<char>, Seq<char>>(locator@),
            Err(message) => parsed_locator(value@) == Err::<Seq<char>, Seq<char>>(message@),
        },
{
    Url::parse(value).map(String::from).map_err(|e| e.to_string())
}

/// What `url::Url::from_file_path` makes of `path`: the serialization of the
/// `file://` locator, or `None` where it refuses the path.
pub uninterp spec fn file_locator(path: Seq<char>) -> Option<Seq<char>>;

/// Turns `path` into a `file://` locator with `url::Url::from_file_path` and
/// hands back its serialization, or `None` where the path is refused.
#[verifier::external_body]
fn locate_file(path: &str) -> (res: Option<String>)
    ensures
        match res {
            Some(locator) => file_locator(path@) == Some(locator@),
            None => file_locator(path@) is None,
        },
{
    Url::from_file_path(path).ok().map(String::from)
}

/// Whether a value is taken for an absolute locator: it holds a `:`.
pub open spec fn is_external(value: Seq<char>) -> bool {
    index_of(value, ':') < value.len()
}

/// `rel` adjoined to `base`: `rel` itself where it starts with `/`, else
/// `base`, a `/` unless `base` is empty or ends with one, and `rel`.
pub open spec fn join(base: Seq<char>, rel: Seq<char>) -> Seq<char> {
    if rel.len() > 0 && rel[0] == '/' {
        rel
    } else if base.len() == 0 || base.last() == '/' {
        base + rel
    } else {
        base + seq!['/'] + rel
    }
}

/// The path that a relative reference stands for: a value that starts with
/// `/` is taken from `root` on, without that `/`; any other value is taken
/// from `current` on.
pub open spec fn candidate_path(value: Seq<char>, current: Seq<char>, root: Seq<char>) -> Seq<
    char,
> {
    if value.len() > 0 && value[0] == '/' {
        join(root, value.subrange(1, value.len() as int))
    } else {
        join(current, value)
    }
}

/// Whether a reference gets a locator, given what the file system said of
/// its path.
pub open spec fn resolvable(value: Seq<char>, lookup: Result<String, normalize::Error>) -> bool {
    if is_external(value) {
        parsed_locator(value) is Ok
    } else {
        lookup matches Ok(full) && file_locator(full@) is Some
    }
}

/// Whether `out` is what resolving `value` gives, where `lookup` is what the
/// file system said of its path.
///
///  - A value that holds a `:` is parsed as a locator: the reference is
///    external, or the error names the raw value.
///  - Any other value stands for `candidate_path`: nothing there is
///    `FileNotFound`, another failure is `CanonicalizationFailed`, both with
///    that path; a normalized path gives a `file://` locator, or
///    `UrlCreationFailed` with the normalized path.
pub open spec fn resolved_as(
    value: Seq<char>,
    current: Seq<char>,
    root: Seq<char>,
    lookup: Result<String, normalize::Error>,
    out: Result<Reference, Error>,
) -> bool {
    match out {
        Ok(reference) => {
            &&& reference.raw@ == value
            &&& if is_external(value) {
                &&& reference.kind == ReferenceKind::External
                &&& parsed_locator(value) == Ok::<Seq<char>, Seq<char>>(reference.locator@)
            } else {
                &&& reference.kind == ReferenceKind::InternalFile
                &&& lookup matches Ok(full)
                &&& file_locator(full@) == Some(reference.locator@)
            }
        },
        Err(Error::UrlParsingFailed(raw, message)) => {
            &&& is_external(value)
            &&& raw@ == value
            &&& parsed_locator(value) == Err::<Seq<char>, Seq<char>>(message@)
        },
        Err(Error::FileNotFound(path)) => {
            &&& !is_external(value)
            &&& lookup == Err::<String, normalize::Error>(normalize::Error::NotFound)
            &&& path@ == candidate_path(value, current, root)
        },
        Err(Error::CanonicalizationFailed(path, message)) => {
            &&& !is_external(value)
            &&& lookup matches Err(normalize::Error::Failed(reason))
            &&& message@ == reason@
            &&& path@ == candidate_path(value, current, root)
        },
        Err(Error::UrlCreationFailed(path)) => {
            &&& !is_external(value)
            &&& lookup matches Ok(full)
            &&& path@ == full@
            &&& file_locator(full@) is None
        },
    }
}

/// Whether `value` holds a `:`.
fn holds_colon(value: &str) -> (b: bool)
    ensures
        b == is_external(value@),
{
    let chars = chars_of(value);
    let n = chars.len();
    let k = find_char(&chars, 0, n, ':');
    proof {
        assert(chars@.subrange(0, n as int) == chars@);
    }
    k < n
}

/// `rel` adjoined to `base`.
fn join_path(base: &str, rel: &str) -> (res: String)
    ensures
        res@ == join(base@, rel@),
{
    let b = chars_of(base);
    let r = chars_of(rel);
    if r.len() > 0 && r[0] == '/' {
        rel.to_owned()
    } else if b.len() == 0 || b[b.len() - 1] == '/' {
        let mut out = base.to_owned();
        out.append(rel);
        out
    } else {
        let mut out = base.to_owned();
        proof {
            reveal_strlit("/");
        }
        out.append("/");
        out.append(rel);
        proof {
            assert("/"@ == seq!['/']);
        }
        out
    }
}

/// The path that the relative reference `value` stands for.
fn candidate(value: &str, current: &str, root: &str) -> (res: String)
    ensures
        res@ == candidate_path(value@, current@, root@),
{
    let chars = chars_of(value);
    if chars.len() > 0 && chars[0] == '/' {
        join_path(root, value.substring_char(1, chars.len()))
    } else {
        join_path(current, value)
    }
}

/// Resolves one reference, given what the file system said of the path that
/// it stands for. The lookup is not consulted for a value that holds a `:`.
pub fn resolve_with(
    value: &str,
    current_path: &str,
    root_path: &str,
    lookup: &Result<String, normalize::Error>,
) -> (res: Result<Reference, Error>)
    ensures
        resolved_as(value@, current_path@, root_path@, *lookup, res),
        res is Ok <==> resolvable(value@, *lookup),
{
    if holds_colon(value) {
        match parse_locator(value) {
            Ok(locator) => Ok(
                Reference { raw: value.to_owned(), locator, kind: ReferenceKind::External },
            ),
            Err(message) => Err(Error::UrlParsingFailed(value.to_owned(), message)),
        }
    } else {
        match lookup {
            Ok(full) => match locate_file(full.as_str()) {
                Some(locator) => Ok(
                    Reference { raw: value.to_owned(), locator, kind: ReferenceKind::InternalFile },
                ),
                None => Err(Error::UrlCreationFailed(full.clone())),
            },
            Err(normalize::Error::NotFound) => Err(
                Error::FileNotFound(candidate(value, current_path, root_path)),
            ),
            Err(normalize::Error::Failed(reason)) => Err(
                Error::CanonicalizationFailed(
                    candidate(value, current_path, root_path),
                    reason.clone(),
                ),
            ),
        }
    }
}

/// What the file system said of the path of reference `i`; a lookup that is
/// missing counts as nothing found.
pub open spec fn lookup_at(lookups: Seq<Result<String, normalize::Error>>, i: int) -> Result<
    String,
    normalize::Error,
> {
    if 0 <= i < lookups.len() {
        lookups[i]
    } else {
        Err(normalize::Error::NotFound)
    }
}

/// The bytes of the locator of each reference.
pub open spec fn locators(urls: Seq<Reference>) -> Seq<Seq<u8>> {
    Seq::new(urls.len(), |i: int| bytes_of(urls[i].locator@))
}

/// Whether `res` is what rewriting `html` gives, where `lookups[i]` is what
/// the file system said of the path of the `i`-th reference.
///
/// A conversion succeeds where every reference resolves: it then holds one
/// reference for each span, in the order of the spans, and the markup with
/// each span replaced by its locator. Where some reference does not resolve,
/// the error is that of the last such reference in the markup.
pub open spec fn converted(
    html: Seq<char>,
    current: Seq<char>,
    root: Seq<char>,
    lookups: Seq<Result<String, normalize::Error>>,
    res: Result<ConvertedUrls, Error>,
) -> bool {
    let spans = reference_spans(html);
    match res {
        Ok(done) => {
            &&& done.urls@.len() == spans.len()
            &&& forall|i: int|
                0 <= i < spans.len() ==> resolved_as(
                    value_at(html, spans[i]),
                    current,
                    root,
                    lookup_at(lookups, i),
                    Ok(#[trigger] done.urls@[i]),
                )
            &&& bytes_of(done.html@) == rewritten(bytes_of(html), spans, locators(done.urls@))
        },
        Err(e) => exists|i: int|
            {
                &&& 0 <= i < spans.len()
                &&& #[trigger] resolved_as(
                    value_at(html, spans[i]),
                    current,
                    root,
                    lookup_at(lookups, i),
                    Err(e),
                )
                &&& forall|j: int|
                    i < j < spans.len() ==> resolvable(
                        value_at(html, #[trigger] spans[j]),
                        lookup_at(lookups, j),
                    )
            },
    }
}

/// Rewrites the references of `html`, given what the file system said of the
/// path of each: `lookups[i]` belongs to the `i`-th reference, counts only
/// where that reference is relative, and counts as nothing found where it is
/// missing.
///
/// The references are resolved from the last to the first, and the output is
/// put together from its end: the offsets of the references that are still to
/// come stay those of the markup that was handed in.
pub fn convert_html_urls_with(
    html: &str,
    current_path: &str,
    root_path: &str,
    lookups: &Vec<Result<String, normalize::Error>>,
) -> (res: Result<ConvertedUrls, Error>)
    ensures
        converted(html@, current_path@, root_path@, lookups@, res),
{
    let spans = find_reference_spans(html);
    let n = spans.len();
    let missing: Result<String, normalize::Error> = Err(normalize::Error::NotFound);
    let mut out = String::new();
    let mut urls: Vec<Reference> = Vec::new();
    let mut last_pos: usize = html.as_bytes().len();
    let mut i: usize = n;
    let ghost bytes = bytes_of(html@);
    proof {
        encode_utf8_valid_utf8(html@);
        is_char_boundary_start_end_of_seq(bytes);
        lemma_bytes_of_concat(Seq::empty(), Seq::empty());
        assert(bytes_of(out@) =~= Seq::<u8>::empty()) by {
            assert(out@ =~= Seq::<char>::empty());
        }
    }
    while i > 0
        invariant
            i <= n,
            n == spans.len(),
            spans@ == reference_spans(html@),
            bytes == bytes_of(html@),
            well_placed(bytes, spans@),
            valid_utf8(bytes),
            missing == Err::<String, normalize::Error>(normalize::Error::NotFound),
            last_pos == start_or_end(bytes, spans@, i as int),
            last_pos <= bytes.len(),
            is_char_boundary(bytes, last_pos as int),
            urls@.len() == n - i,
            forall|k: int|
                0 <= k < n - i ==> resolved_as(
                    value_at(html@, spans@[i + k]),
                    current_path@,
                    root_path@,
                    lookup_at(lookups@, i + k),
                    Ok(#[trigger] urls@[k]),
                ),
            forall|j: int|
                i <= j < n ==> resolvable(
                    value_at(html@, #[trigger] spans@[j]),
                    lookup_at(lookups@, j),
                ),
            bytes_of(out@) == rewritten_from(bytes, spans@, locators(urls@), i as int),
        decreases i,
    {
        i = i - 1;
        let span = spans[i];
        let value = slice(html, span.start, span.end);
        let lookup = if i < lookups.len() {
            &lookups[i]
        } else {
            &missing
        };
        match resolve_with(value, current_path, root_path, lookup) {
            Err(e) => {
                proof {
                    assert(resolved_as(
                        value_at(html@, spans@[i as int]),
                        current_path@,
                        root_path@,
                        lookup_at(lookups@, i as int),
                        Err(e),
                    ));
                }
                return Err(e);
            },
            Ok(reference) => {
                let piece = slice(html, span.end, last_pos);
                let ghost before = out@;
                let ghost earlier = urls@;
                prepend(&mut out, piece);
                prepend(&mut out, reference.locator.as_str());
                urls.insert(0, reference);
                proof {
                    let reps = locators(urls@);
                    assert(reps.drop_first() =~= locators(earlier));
                    assert(reps[0] == bytes_of(reference.locator@));
                    lemma_bytes_of_concat(piece@, before);
                    lemma_bytes_of_concat(reference.locator@, piece@ + before);
                    assert forall|k: int| 0 <= k < n - i implies resolved_as(
                        value_at(html@, spans@[i + k]),
                        current_path@,
                        root_path@,
                        lookup_at(lookups@, i + k),
                        Ok(#[trigger] urls@[k]),
                    ) by {
                        if k > 0 {
                            assert(urls@[k] == earlier[k - 1]);
                        }
                    }
                }
                last_pos = span.start;
            },
        }
    }
    let head = slice(html, 0, last_pos);
    proof {
        lemma_bytes_of_concat(head@, out@);
    }
    prepend(&mut out, head);
    Ok(ConvertedUrls { html: out, urls })
}

/// The path to look up on disk for each reference of `html`, in the order of
/// the references: `None` for a value that holds a `:`, else the path that
/// the value stands for.
pub fn lookup_paths(html: &str, current_path: &str, root_path: &str) -> (paths: Vec<
    Option<String>,
>)
    ensures
        paths@.len() == reference_spans(html@).len(),
        forall|i: int|
            0 <= i < paths@.len() ==> {
                let value = value_at(html@, reference_spans(html@)[i]);
                match #[trigger] paths@[i] {
                    None => is_external(value),
                    Some(path) => !is_external(value) && path@ == candidate_path(
                        value,
                        current_path@,
                        root_path@,
                    ),
                }
            },
{
    let spans = find_reference_spans(html);
    let mut paths: Vec<Option<String>> = Vec::new();
    let mut i: usize = 0;
    proof {
        encode_utf8_valid_utf8(html@);
    }
    while i < spans.len()
        invariant
            i <= spans.len(),
            spans@ == reference_spans(html@),
            well_placed(bytes_of(html@), spans@),
            paths@.len() == i,
            forall|k: int|
                0 <= k < i ==> {
                    let value = value_at(html@, spans@[k]);
                    match #[trigger] paths@[k] {
                        None => is_external(value),
                        Some(path) => !is_external(value) && path@ == candidate_path(
                            value,
                            current_path@,
                            root_path@,
                        ),
                    }
                },
        decreases spans.len() - i,
    {
        let span = spans[i];
        let value = slice(html, span.start, span.end);
        if holds_colon(value) {
            paths.push(None);
        } else {
            paths.push(Some(candidate(value, current_path, root_path)));
        }
        i = i + 1;
    }
    paths
}

/// Whether every reference of `html` is taken for an absolute locator, so
/// that none is looked up on disk.
pub open spec fn all_external(html: Seq<char>) -> bool {
    forall|i: int|
        0 <= i < reference_spans(html).len() ==> is_external(
            value_at(html, #[trigger] reference_spans(html)[i]),
        )
}

/// Where no reference is looked up, the lookups do not count.
pub proof fn lemma_lookups_of_external(
    html: Seq<char>,
    current: Seq<char>,
    root: Seq<char>,
    lookups: Seq<Result<String, normalize::Error>>,
    others: Seq<Result<String, normalize::Error>>,
    res: Result<ConvertedUrls, Error>,
)
    requires
        all_external(html),
        converted(html, current, root, lookups, res),
    ensures
        converted(html, current, root, others, res),
{
    let spans = reference_spans(html);
    match res {
        Ok(done) => {
            assert forall|i: int| 0 <= i < spans.len() implies resolved_as(
                value_at(html, spans[i]),
                current,
                root,
                lookup_at(others, i),
                Ok(#[trigger] done.urls@[i]),
            ) by {
                assert(resolved_as(
                    value_at(html, spans[i]),
                    current,
                    root,
                    lookup_at(lookups, i),
                    Ok(done.urls@[i]),
                ));
            }
        },
        Err(e) => {
            let i = choose|i: int|
                {
                    &&& 0 <= i < spans.len()
                    &&& #[trigger] resolved_as(
                        value_at(html, spans[i]),
                        current,
                        root,
                        lookup_at(lookups, i),
                        Err(e),
                    )
                    &&& forall|j: int|
                        i < j < spans.len() ==> resolvable(
                            value_at(html, #[trigger] spans[j]),
                            lookup_at(lookups, j),
                        )
                };
            assert(resolved_as(
                value_at(html, spans[i]),
                current,
                root,
                lookup_at(others, i),
                Err(e),
            ));
            assert forall|j: int| i < j < spans.len() implies resolvable(
                value_at(html, #[trigger] spans[j]),
                lookup_at(others, j),
            ) by {
                assert(resolvable(value_at(html, spans[j]), lookup_at(lookups, j)));
            }
        },
    }
}

/// Markup without references comes back as it is.
pub proof fn lemma_no_reference_no_change(
    html: Seq<char>,
    current: Seq<char>,
    root: Seq<char>,
    lookups: Seq<Result<String, normalize::Error>>,
    res: Result<ConvertedUrls, Error>,
)
    requires
        reference_spans(html).len() == 0,
        converted(html, current, root, lookups, res),
    ensures
        res matches Ok(done) && done.html@ == html && done.urls@.len() == 0,
{
    match res {
        Ok(done) => {
            let bytes = bytes_of(html);
            assert(rewritten(bytes, reference_spans(html), locators(done.urls@)) =~= bytes);
            encode_utf8_decode_utf8(done.html@);
            encode_utf8_decode_utf8(html);
        },
        Err(e) => {},
    }
}

/// Rewrites the references of `html` to absolute locators.
///
/// A relative reference is looked up on disk: from `root_path` on where it
/// starts with `/`, else from `current_path` on. What comes back is what
/// `convert_html_urls_with` gives for the answers of the file system; where
/// no reference is relative, nothing is looked up and the outcome is that of
/// `convert_html_urls_with` whatever the lookups.
pub fn convert_html_urls(html: &str, current_path: &str, root_path: &str) -> (res: Result<
    ConvertedUrls,
    Error,
>)
    ensures
        exists|lookups: Seq<Result<String, normalize::Error>>| #[trigger]
            converted(html@, current_path@, root_path@, lookups, res),
        all_external(html@) ==> converted(html@, current_path@, root_path@, Seq::empty(), res),
{
    let paths = lookup_paths(html, current_path, root_path);
    let mut lookups: Vec<Result<String, normalize::Error>> = Vec::new();
    let mut i: usize = 0;
    while i < paths.len()
        invariant
            i <= paths.len(),
        decreases paths.len() - i,
    {
        match &paths[i] {
            Some(path) => lookups.push(normalize_sync(path.as_str())),
            None => lookups.push(Err(normalize::Error::NotFound)),
        }
        i = i + 1;
    }
    let res = convert_html_urls_with(html, current_path, root_path, &lookups);
    proof {
        if all_external(html@) {
            lemma_lookups_of_external(html@, current_path@, root_path@, lookups@, Seq::empty(), res);
        }
    }
    res
}

/// The bytes that stand at each span.
pub open spec fn in_place(bytes: Seq<u8>, spans: Seq<Span>) -> Seq<Seq<u8>> {
    Seq::new(spans.len(), |i: int| bytes.subrange(spans[i].start as int, spans[i].end as int))
}

proof fn lemma_identity_from(bytes: Seq<u8>, spans: Seq<Span>, i: int)
    requires
        well_placed(bytes, spans),
        0 <= i <= spans.len(),
    ensures
        rewritten_from(bytes, spans, in_place(bytes, spans).skip(i), i) == bytes.subrange(
            start_or_end(bytes, spans, i),
            bytes.len() as int,
        ),
    decreases spans.len() - i,
{
    let reps = in_place(bytes, spans).skip(i);
    if i < spans.len() {
        lemma_identity_from(bytes, spans, i + 1);
        assert(reps.drop_first() == in_place(bytes, spans).skip(i + 1));
        assert(reps[0] == bytes.subrange(spans[i].start as int, spans[i].end as int));
        if i + 1 < spans.len() {
            assert(spans[i].end <= spans[i + 1].start);
        }
        assert(rewritten_from(bytes, spans, reps, i) =~= bytes.subrange(
            spans[i].start as int,
            bytes.len() as int,
        ));
    } else {
        assert(rewritten_from(bytes, spans, reps, i) =~= bytes.subrange(
            bytes.len() as int,
            bytes.len() as int,
        ));
    }
}

/// Rewriting touches the spans only: where each span is replaced by what
/// stands there already, the markup that comes out is the markup that went in,
/// byte for byte.
pub proof fn lemma_rewritten_identity(bytes: Seq<u8>, spans: Seq<Span>)
    requires
        well_placed(bytes, spans),
    ensures
        rewritten(bytes, spans, in_place(bytes, spans)) == bytes,
{
    lemma_identity_from(bytes, spans, 0);
    assert(in_place(bytes, spans).skip(0) == in_place(bytes, spans));
    assert(rewritten(bytes, spans, in_place(bytes, spans)) =~= bytes);
}

/// Where every reference resolves, the conversion succeeds: it holds one
/// locator for each reference of the markup, in the order of the markup, each
/// the one that its value resolves to, and the markup with each value
/// replaced by its locator and nothing else changed.
pub proof fn lemma_all_resolvable_converts(
    html: Seq<char>,
    current: Seq<char>,
    root: Seq<char>,
    lookups: Seq<Result<String, normalize::Error>>,
    res: Result<ConvertedUrls, Error>,
)
    requires
        converted(html, current, root, lookups, res),
        forall|i: int|
            0 <= i < reference_spans(html).len() ==> resolvable(
                value_at(html, #[trigger] reference_spans(html)[i]),
                lookup_at(lookups, i),
            ),
    ensures
        res matches Ok(done) && {
            &&& done.urls@.len() == reference_spans(html).len()
            &&& forall|i: int|
                0 <= i < done.urls@.len() ==> (#[trigger] done.urls@[i]).raw@ == value_at(
                    html,
                    reference_spans(html)[i],
                )
            &&& bytes_of(done.html@) == rewritten(
                bytes_of(html),
                reference_spans(html),
                locators(done.urls@),
            )
        },
{
    let spans = reference_spans(html);
    match res {
        Ok(done) => {},
        Err(e) => {
            let i = choose|i: int|
                {
                    &&& 0 <= i < spans.len()
                    &&& #[trigger] resolved_as(
                        value_at(html, spans[i]),
                        current,
                        root,
                        lookup_at(lookups, i),
                        Err(e),
                    )
                };
            assert(resolvable(value_at(html, spans[i]), lookup_at(lookups, i)));
        },
    }
}

/// A reference that does not resolve fails the whole conversion, and where
/// every reference after it resolves, the error is its own.
pub proof fn lemma_failure_is_reported(
    html: Seq<char>,
    current: Seq<char>,
    root: Seq<char>,
    lookups: Seq<Result<String, normalize::Error>>,
    res: Result<ConvertedUrls, Error>,
    i: int,
)
    requires
        converted(html, current, root, lookups, res),
        0 <= i < reference_spans(html).len(),
        !resolvable(value_at(html, reference_spans(html)[i]), lookup_at(lookups, i)),
    ensures
        res is Err,
        (forall|j: int|
            i < j < reference_spans(html).len() ==> resolvable(
                value_at(html, #[trigger] reference_spans(html)[j]),
                lookup_at(lookups, j),
            )) ==> (res matches Err(e) && resolved_as(
            value_at(html, reference_spans(html)[i]),
            current,
            root,
            lookup_at(lookups, i),
            Err(e),
        )),
{
    let spans = reference_spans(html);
    match res {
        Ok(done) => {
            assert(resolved_as(
                value_at(html, spans[i]),
                current,
                root,
                lookup_at(lookups, i),
                Ok(done.urls@[i]),
            ));
        },
        Err(e) => {
            if forall|j: int|
                i < j < spans.len() ==> resolvable(
                    value_at(html, #[trigger] spans[j]),
                    lookup_at(lookups, j),
                ) {
                let k = choose|k: int|
                    {
                        &&& 0 <= k < spans.len()
                        &&& #[trigger] resolved_as(
                            value_at(html, spans[k]),
                            current,
                            root,
                            lookup_at(lookups, k),
                            Err(e),
                        )
                        &&& forall|j: int|
                            k < j < spans.len() ==> resolvable(
                                value_at(html, #[trigger] spans[j]),
                                lookup_at(lookups, j),
                            )
                    };
                if k < i {
                    assert(resolvable(value_at(html, spans[i]), lookup_at(lookups, i)));
                } else if k > i {
                    assert(resolvable(value_at(html, spans[k]), lookup_at(lookups, k)));
                }
                assert(k == i);
            }
        },
    }
}

/// A value that holds a `:` and is no absolute locator fails the conversion
/// with an error that names that very value; no other locator takes its
/// place. (Stated for the last reference that fails.)
pub proof fn lemma_malformed_locator_is_named(
    html: Seq<char>,
    current: Seq<char>,
    root: Seq<char>,
    lookups: Seq<Result<String, normalize::Error>>,
    res: Result<ConvertedUrls, Error>,
    i: int,
)
    requires
        converted(html, current, root, lookups, res),
        0 <= i < reference_spans(html).len(),
        is_external(value_at(html, reference_spans(html)[i])),
        parsed_locator(value_at(html, reference_spans(html)[i])) is Err,
        forall|j: int|
            i < j < reference_spans(html).len() ==> resolvable(
                value_at(html, #[trigger] reference_spans(html)[j]),
                lookup_at(lookups, j),
            ),
    ensures
        res matches Err(Error::UrlParsingFailed(raw, _)) && raw@ == value_at(
            html,
            reference_spans(html)[i],
        ),
{
    lemma_failure_is_reported(html, current, root, lookups, res, i);
}

/// A relative value at whose path nothing exists fails the conversion with
/// `FileNotFound`, which names the path that the value resolves to, and with
/// no other error. (Stated for the last reference that fails.)
pub proof fn lemma_missing_target_is_named(
    html: Seq<char>,
    current: Seq<char>,
    root: Seq<char>,
    lookups: Seq<Result<String, normalize::Error>>,
    res: Result<ConvertedUrls, Error>,
    i: int,
)
    requires
        converted(html, current, root, lookups, res),
        0 <= i < reference_spans(html).len(),
        !is_external(value_at(html, reference_spans(html)[i])),
        lookup_at(lookups, i) == Err::<String, normalize::Error>(normalize::Error::NotFound),
        forall|j: int|
            i < j < reference_spans(html).len() ==> resolvable(
                value_at(html, #[trigger] reference_spans(html)[j]),
                lookup_at(lookups, j),
            ),
    ensures
        res matches Err(Error::FileNotFound(path)) && path@ == candidate_path(
            value_at(html, reference_spans(html)[i]),
            current,
            root,
        ),
{
    lemma_failure_is_reported(html, current, root, lookups, res, i);
}

/// Whether two errors are the same: of one kind, and with the same texts.
pub open spec fn same_error(a: Error, b: Error) -> bool {
    match (a, b) {
        (Error::UrlCreationFailed(p), Error::UrlCreationFailed(q)) => p@ == q@,
        (Error::FileNotFound(p), Error::FileNotFound(q)) => p@ == q@,
        (Error::CanonicalizationFailed(p, m), Error::CanonicalizationFailed(q, n)) => p@ == q@
            && m@ == n@,
        (Error::UrlParsingFailed(p, m), Error::UrlParsingFailed(q, n)) => p@ == q@ && m@ == n@,
        _ => false,
    }
}

/// Rewriting is a function of what is handed in: two conversions of the same
/// markup, with the same answers of the file system, give the same markup and
/// the same references, or the same error.
pub proof fn lemma_conversion_is_repeatable(
    html: Seq<char>,
    current: Seq<char>,
    root: Seq<char>,
    lookups: Seq<Result<String, normalize::Error>>,
    first: Result<ConvertedUrls, Error>,
    second: Result<ConvertedUrls, Error>,
)
    requires
        converted(html, current, root, lookups, first),
        converted(html, current, root, lookups, second),
    ensures
        match (first, second) {
            (Ok(a), Ok(b)) => {
                &&& a.html@ == b.html@
                &&& a.urls@.len() == b.urls@.len()
                &&& forall|i: int|
                    0 <= i < a.urls@.len() ==> {
                        &&& (#[trigger] a.urls@[i]).raw@ == b.urls@[i].raw@
                        &&& a.urls@[i].locator@ == b.urls@[i].locator@
                        &&& a.urls@[i].kind == b.urls@[i].kind
                    }
            },
            (Err(a), Err(b)) => same_error(a, b),
            _ => false,
        },
{
    let spans = reference_spans(html);
    match (first, second) {
        (Ok(a), Ok(b)) => {
            assert forall|i: int| 0 <= i < a.urls@.len() implies {
                &&& (#[trigger] a.urls@[i]).raw@ == b.urls@[i].raw@
                &&& a.urls@[i].locator@ == b.urls@[i].locator@
                &&& a.urls@[i].kind == b.urls@[i].kind
            } by {
                assert(resolved_as(
                    value_at(html, spans[i]),
                    current,
                    root,
                    lookup_at(lookups, i),
                    Ok(a.urls@[i]),
                ));
                assert(resolved_as(
                    value_at(html, spans[i]),
                    current,
                    root,
                    lookup_at(lookups, i),
                    Ok(b.urls@[i]),
                ));
            }
            assert(locators(a.urls@) =~= locators(b.urls@));
            encode_utf8_decode_utf8(a.html@);
            encode_utf8_decode_utf8(b.html@);
        },
        (Err(a), Err(b)) => {
            lemma_failure_index(html, current, root, lookups, a, b);
        },
        (Ok(a), Err(e)) => {
            lemma_failure_excludes_success(html, current, root, lookups, a, e);
        },
        (Err(e), Ok(b)) => {
            lemma_failure_excludes_success(html, current, root, lookups, b, e);
        },
    }
}

proof fn lemma_failure_excludes_success(
    html: Seq<char>,
    current: Seq<char>,
    root: Seq<char>,
    lookups: Seq<Result<String, normalize::Error>>,
    done: ConvertedUrls,
    e: Error,
)
    requires
        converted(html, current, root, lookups, Ok(done)),
    ensures
        !converted(html, current, root, lookups, Err(e)),
{
    if converted(html, current, root, lookups, Err(e)) {
        let spans = reference_spans(html);
        let i = choose|i: int|
            {
                &&& 0 <= i < spans.len()
                &&& #[trigger] resolved_as(
                    value_at(html, spans[i]),
                    current,
                    root,
                    lookup_at(lookups, i),
                    Err(e),
                )
            };
        assert(resolved_as(
            value_at(html, spans[i]),
            current,
            root,
            lookup_at(lookups, i),
            Ok(done.urls@[i]),
        ));
    }
}

proof fn lemma_failure_index(
    html: Seq<char>,
    current: Seq<char>,
    root: Seq<char>,
    lookups: Seq<Result<String, normalize::Error>>,
    a: Error,
    b: Error,
)
    requires
        converted(html, current, root, lookups, Err(a)),
        converted(html, current, root, lookups, Err(b)),
    ensures
        same_error(a, b),
{
    let spans = reference_spans(html);
    let i = choose|i: int|
        {
            &&& 0 <= i < spans.len()
            &&& #[trigger] resolved_as(
                value_at(html, spans[i]),
                current,
                root,
                lookup_at(lookups, i),
                Err(a),
            )
            &&& forall|j: int|
                i < j < spans.len() ==> resolvable(
                    value_at(html, #[trigger] spans[j]),
                    lookup_at(lookups, j),
                )
        };
    let k = choose|k: int|
        {
            &&& 0 <= k < spans.len()
            &&& #[trigger] resolved_as(
                value_at(html, spans[k]),
                current,
                root,
                lookup_at(lookups, k),
                Err(b),
            )
            &&& forall|j: int|
                k < j < spans.len() ==> resolvable(
                    value_at(html, #[trigger] spans[j]),
                    lookup_at(lookups, j),
                )
        };
    if i < k {
        assert(resolvable(value_at(html, spans[k]), lookup_at(lookups, k)));
    } else if k < i {
        assert(resolvable(value_at(html, spans[i]), lookup_at(lookups, i)));
    }
    assert(i == k);
}

} // verus!
