//! File resolution: from the path of a request to the response that answers it.
//!
//! A [`Lookup`] is the operation on the file system that comes next. Once it was
//! performed, its outcome goes into [`Lookup::step`], which says what comes after it.
//! The functions before it make its decisions: [`serve_file`], [`confine`],
//! [`file_path`], [`confine_index`] and [`deliver`].

use vstd::prelude::*;
use vstd::utf8::{
    encode_utf8, encode_utf8_valid_utf8, is_ascii_chars_encode_utf8, valid_utf8,
};

use crate::bytes::{
    ascii_lower_spec, law_trim_takes_off_separators, lemma_split_nonempty, lemma_trimmed, lower,
    pieces, push_bytes, ranges_in, same, split, split_spec, text, trim_start, trim_start_spec, utf8,
};
use crate::io::ErrorKind;
use crate::paths::{
    components, extension, is_below, join, joined_path, law_extension_follows_the_last_dot,
    law_join_appends_name, law_join_is_exact, law_join_stays_below, law_no_extension_without_a_dot,
    lemma_split_concat, lemma_split_whole, path_extension, starts_with,
};
use crate::response::{head, mime_for_ext, mime_type, ok_lines, Response};

verus! {

/// One of the segments of `path` is `..`.
pub open spec fn has_parent_segment(path: Seq<u8>) -> bool {
    split_spec(path, '/' as u8).contains(text(".."))
}

/// The path that a request path is looked up at, below `root`.
pub open spec fn candidate_path(path: Seq<u8>, root: Seq<u8>) -> Seq<u8> {
    joined_path(root, trim_start_spec(path, '/' as u8))
}

/// The file that answers for `canonical`: its index if it is a directory.
pub open spec fn served_path(canonical: Seq<u8>, is_dir: bool) -> Seq<u8> {
    if is_dir {
        joined_path(canonical, text("index.html"))
    } else {
        canonical
    }
}

/// The extension of a path if it has one in UTF-8, and nothing otherwise.
pub open spec fn known_extension(path: Seq<u8>) -> Seq<u8> {
    match path_extension(path) {
        Some(ext) => if valid_utf8(ext) {
            ext
        } else {
            Seq::empty()
        },
        None => Seq::empty(),
    }
}

/// The content type of the file at `path`.
pub open spec fn content_type(path: Seq<u8>) -> Seq<char> {
    mime_type(ascii_lower_spec(known_extension(path)))
}

/// Whether a segment of `path` is `..`.
fn names_parent(path: &[u8]) -> (r: bool)
    ensures
        r == has_parent_segment(path@),
{
    let cut = split(path, '/' as u8);
    let ghost all = split_spec(path@, '/' as u8);
    let mut i: usize = 0;
    assert(all.len() == cut@.len());
    while i < cut.len()
        invariant
            i <= cut@.len(),
            ranges_in(cut@, path@.len()),
            all == split_spec(path@, '/' as u8),
            all == pieces(path@, cut@),
            forall|k: int| 0 <= k < i ==> all[k] != text(".."),
        decreases cut@.len() - i,
    {
        let (start, end) = cut[i];
        assert(all[i as int] == path@.subrange(start as int, end as int));
        if same(&path[start..end], "..".as_bytes()) {
            return true;
        }
        i += 1;
    }
    false
}

/// Starts the lookup of `url_path` below `root`: the path whose canonical form is
/// asked for, or the refusal of a path that names a parent directory. Such a path is
/// refused whether or not anything exists where it leads.
pub fn serve_file<F>(url_path: &str, root: &[u8]) -> (r: Result<Vec<u8>, Response<F>>)
    ensures
        match r {
            Ok(candidate) => {
                &&& !has_parent_segment(text(url_path))
                &&& candidate@ == candidate_path(text(url_path), root@)
            },
            Err(refusal) => has_parent_segment(text(url_path)) && refusal.is_forbidden(),
        },
{
    let path = url_path.as_bytes();
    if names_parent(path) {
        return Err(Response::forbidden());
    }
    Ok(join(root, trim_start(path, '/' as u8)))
}

/// This is what becomes of the canonical form that was `found` for the candidate.
pub open spec fn confines<F>(
    found: Result<Vec<u8>, ErrorKind>,
    root: Seq<u8>,
    r: Result<Vec<u8>, Response<F>>,
) -> bool {
    match found {
        Ok(path) => if is_below(path@, root) {
            r matches Ok(canonical) && canonical@ == path@
        } else {
            r matches Err(refusal) && refusal.is_forbidden()
        },
        Err(kind) => if kind.missing() {
            r matches Err(refusal) && refusal.is_not_found()
        } else {
            r matches Err(refusal) && refusal.is_internal_error()
        },
    }
}

/// Takes the canonical form that was `found` for the candidate: the path to go on
/// with, or the response to a path that does not exist, that could not be resolved
/// or that leads out of `root`.
pub fn confine<F>(found: Result<Vec<u8>, ErrorKind>, root: &[u8]) -> (r: Result<
    Vec<u8>,
    Response<F>,
>)
    ensures
        confines(found, root@, r),
{
    match found {
        Ok(path) => {
            if starts_with(path.as_slice(), root) {
                Ok(path)
            } else {
                Err(Response::forbidden())
            }
        },
        Err(kind) => {
            if kind.is_missing() {
                Err(Response::not_found())
            } else {
                Err(Response::internal_error())
            }
        },
    }
}

/// The file that answers for `canonical`, which is a directory or not. The index of a
/// directory may be a link, and is opened only once it was resolved and confined.
pub fn file_path(canonical: Vec<u8>, is_dir: bool) -> (r: Vec<u8>)
    ensures
        r@ == served_path(canonical@, is_dir),
{
    if is_dir {
        join(canonical.as_slice(), "index.html".as_bytes())
    } else {
        canonical
    }
}

/// This is what becomes of the canonical form that was `found` for an index.
pub open spec fn confines_index<F>(
    found: Result<Vec<u8>, ErrorKind>,
    root: Seq<u8>,
    r: Result<Vec<u8>, Response<F>>,
) -> bool {
    match found {
        Ok(path) => if is_below(path@, root) {
            r matches Ok(canonical) && canonical@ == path@
        } else {
            r matches Err(refusal) && refusal.is_forbidden()
        },
        Err(kind) => if kind.missing() {
            r matches Err(refusal) && refusal.is_not_found()
        } else if kind == ErrorKind::PermissionDenied {
            r matches Err(refusal) && refusal.is_forbidden()
        } else {
            r matches Err(refusal) && refusal.is_internal_error()
        },
    }
}

/// Takes the canonical form that was `found` for the index of a directory: the path to
/// open, or the response to an index that does not exist, that may not be read, that
/// could not be resolved or that leads out of `root`.
pub fn confine_index<F>(found: Result<Vec<u8>, ErrorKind>, root: &[u8]) -> (r: Result<
    Vec<u8>,
    Response<F>,
>)
    ensures
        confines_index(found, root@, r),
{
    match found {
        Ok(path) => {
            if starts_with(path.as_slice(), root) {
                Ok(path)
            } else {
                Err(Response::forbidden())
            }
        },
        Err(kind) => {
            if kind.is_missing() {
                Err(Response::not_found())
            } else if kind == ErrorKind::PermissionDenied {
                Err(Response::forbidden())
            } else {
                Err(Response::internal_error())
            }
        },
    }
}

/// The response once the file that answers by the name of `path` was `opened`, with its
/// size if that is known.
pub fn deliver<F>(path: &[u8], opened: Result<(F, Option<u64>), ErrorKind>) -> (r: Response<F>)
    ensures
        match opened {
            Ok((file, Some(size))) => r.is_ok(file, content_type(path@), size),
            Ok((_, None)) => r.is_internal_error(),
            Err(kind) => if kind.missing() {
                r.is_not_found()
            } else if kind == ErrorKind::PermissionDenied {
                r.is_forbidden()
            } else {
                r.is_internal_error()
            },
        },
{
    match opened {
        Ok((file, size)) => {
            let known: Option<&str> = match extension(path) {
                Some(ext) => utf8(ext),
                None => None,
            };
            let ext: &str = match known {
                Some(ext) => ext,
                None => "",
            };
            proof {
                reveal_strlit("");
                is_ascii_chars_encode_utf8(""@);
                assert(text("") =~= Seq::<u8>::empty());
                assert(text(ext) == known_extension(path@));
            }
            Response::ok(file, size, mime_for_ext(ext))
        },
        Err(kind) => {
            if kind.is_missing() {
                Response::not_found()
            } else if kind == ErrorKind::PermissionDenied {
                Response::forbidden()
            } else {
                Response::internal_error()
            }
        },
    }
}

/// The path that is looked up lies below the root, by its components.
pub proof fn law_candidate_is_below_root(path: Seq<u8>, root: Seq<u8>)
    requires
        root.len() > 0,
    ensures
        is_below(candidate_path(path, root), root),
{
    lemma_trimmed(path, '/' as u8);
    law_join_stays_below(root, trim_start_spec(path, '/' as u8));
}

/// The next operation of a lookup.
pub enum Lookup {
    /// Find the canonical form of the candidate path.
    Resolve { candidate: Vec<u8> },
    /// Find out whether the path is a directory.
    Inspect { canonical: Vec<u8> },
    /// Find the canonical form of the index of a directory.
    ResolveIndex { index: Vec<u8> },
    /// Open the file `target`, which answers by the name `path`.
    Open { path: Vec<u8>, target: Vec<u8> },
}

/// The outcome of an operation.
pub enum FileEvent<F> {
    Resolved(Result<Vec<u8>, ErrorKind>),
    IsDirectory(bool),
    /// The file was opened, and its size is known or not.
    Opened(Result<(F, Option<u64>), ErrorKind>),
}

/// What follows an operation.
pub enum LookupStep<F> {
    /// Another operation.
    Continue(Lookup),
    /// The lookup is over.
    Respond(Response<F>),
}

impl<F> LookupStep<F> {
    pub open spec fn resolves(self, path: Seq<u8>) -> bool {
        self matches LookupStep::Continue(Lookup::Resolve { candidate }) && candidate@ == path
    }

    pub open spec fn inspects(self, path: Seq<u8>) -> bool {
        self matches LookupStep::Continue(Lookup::Inspect { canonical }) && canonical@ == path
    }

    pub open spec fn resolves_index(self, path: Seq<u8>) -> bool {
        self matches LookupStep::Continue(Lookup::ResolveIndex { index }) && index@ == path
    }

    pub open spec fn opens(self, name: Seq<u8>, file: Seq<u8>) -> bool {
        self matches LookupStep::Continue(Lookup::Open { path, target }) && path@ == name
            && target@ == file
    }

    /// The lookup ends with a file that was opened: 200.
    pub open spec fn sends(self, file: F, content_type: Seq<char>, size: u64) -> bool {
        self matches LookupStep::Respond(response) && response.is_ok(file, content_type, size)
    }

    pub open spec fn forbids(self) -> bool {
        self matches LookupStep::Respond(response) && response.is_forbidden()
    }

    pub open spec fn misses(self) -> bool {
        self matches LookupStep::Respond(response) && response.is_not_found()
    }

    pub open spec fn fails(self) -> bool {
        self matches LookupStep::Respond(response) && response.is_internal_error()
    }
}

impl Lookup {
    /// What is inspected and what is opened lies below the root.
    pub open spec fn wf(self, root: Seq<u8>) -> bool {
        match self {
            Lookup::Inspect { canonical } => is_below(canonical@, root),
            Lookup::Open { target, .. } => is_below(target@, root),
            _ => true,
        }
    }

    /// This is how the lookup of `url_path` starts.
    pub open spec fn starts<F>(url_path: Seq<u8>, root: Seq<u8>, step: LookupStep<F>) -> bool {
        if has_parent_segment(url_path) {
            step.forbids()
        } else {
            step.resolves(candidate_path(url_path, root))
        }
    }

    /// `step` is what follows `self` with the outcome `event`. An event that is no
    /// outcome of the operation is an internal error.
    pub open spec fn leads_to<F>(
        self,
        event: FileEvent<F>,
        root: Seq<u8>,
        step: LookupStep<F>,
    ) -> bool {
        match (self, event) {
            (Lookup::Resolve { .. }, FileEvent::Resolved(Ok(path))) => if is_below(path@, root) {
                step.inspects(path@)
            } else {
                step.forbids()
            },
            (Lookup::Resolve { .. }, FileEvent::Resolved(Err(kind))) => if kind.missing() {
                step.misses()
            } else {
                step.fails()
            },
            (Lookup::Inspect { canonical }, FileEvent::IsDirectory(is_dir)) => if is_dir {
                step.resolves_index(served_path(canonical@, true))
            } else {
                step.opens(canonical@, canonical@)
            },
            (Lookup::ResolveIndex { index }, FileEvent::Resolved(Ok(path))) => if is_below(
                path@,
                root,
            ) {
                step.opens(index@, path@)
            } else {
                step.forbids()
            },
            (Lookup::ResolveIndex { .. }, FileEvent::Resolved(Err(kind))) => if kind.missing() {
                step.misses()
            } else if kind == ErrorKind::PermissionDenied {
                step.forbids()
            } else {
                step.fails()
            },
            (
                Lookup::Open { path, .. },
                FileEvent::Opened(Ok((file, Some(size)))),
            ) => step.sends(file, content_type(path@), size),
            (Lookup::Open { .. }, FileEvent::Opened(Err(kind))) => if kind.missing() {
                step.misses()
            } else if kind == ErrorKind::PermissionDenied {
                step.forbids()
            } else {
                step.fails()
            },
            _ => step.fails(),
        }
    }

    /// Starts the lookup of `url_path` below `root`.
    pub fn start<F>(url_path: &str, root: &[u8]) -> (r: LookupStep<F>)
        ensures
            Lookup::starts(text(url_path), root@, r),
            r matches LookupStep::Continue(next) ==> next.wf(root@),
    {
        match serve_file(url_path, root) {
            Ok(candidate) => LookupStep::Continue(Lookup::Resolve { candidate }),
            Err(refusal) => LookupStep::Respond(refusal),
        }
    }

    /// What follows this operation with the outcome `event`.
    pub fn step<F>(self, event: FileEvent<F>, root: &[u8]) -> (r: LookupStep<F>)
        requires
            self.wf(root@),
        ensures
            self.leads_to(event, root@, r),
            r matches LookupStep::Continue(next) ==> next.wf(root@),
    {
        match (self, event) {
            (Lookup::Resolve { .. }, FileEvent::Resolved(found)) => match confine(found, root) {
                Ok(canonical) => LookupStep::Continue(Lookup::Inspect { canonical }),
                Err(refusal) => LookupStep::Respond(refusal),
            },
            (Lookup::Inspect { canonical }, FileEvent::IsDirectory(is_dir)) => {
                if is_dir {
                    let index = file_path(canonical, true);
                    LookupStep::Continue(Lookup::ResolveIndex { index })
                } else {
                    let mut path: Vec<u8> = Vec::new();
                    push_bytes(&mut path, canonical.as_slice());
                    assert(path@ =~= canonical@);
                    LookupStep::Continue(Lookup::Open { path, target: canonical })
                }
            },
            (Lookup::ResolveIndex { index }, FileEvent::Resolved(found)) => {
                match confine_index(found, root) {
                    Ok(target) => LookupStep::Continue(Lookup::Open { path: index, target }),
                    Err(refusal) => LookupStep::Respond(refusal),
                }
            },
            (Lookup::Open { path, .. }, FileEvent::Opened(opened)) => LookupStep::Respond(
                deliver(path.as_slice(), opened),
            ),
            _ => LookupStep::Respond(Response::internal_error()),
        }
    }
}

/// Whatever is opened lies at or below the root once all links are resolved, be it a
/// file or the index of a directory: no step of a lookup calls for another path.
pub proof fn law_opened_path_is_below_root<F>(
    lookup: Lookup,
    event: FileEvent<F>,
    root: Seq<u8>,
    step: LookupStep<F>,
)
    requires
        lookup.wf(root),
        lookup.leads_to(event, root, step),
    ensures
        step matches LookupStep::Continue(next) ==> next.wf(root),
        step matches LookupStep::Continue(Lookup::Open { target, .. }) ==> is_below(target@, root),
{
}

/// A file is sent only if it was opened, at a path below the root.
pub proof fn law_sent_file_is_below_root<F>(
    lookup: Lookup,
    event: FileEvent<F>,
    root: Seq<u8>,
    step: LookupStep<F>,
)
    requires
        lookup.wf(root),
        lookup.leads_to(event, root, step),
        step matches LookupStep::Respond(response) && response is File,
    ensures
        lookup matches Lookup::Open { target, .. } && is_below(target@, root),
        event matches FileEvent::Opened(Ok((file, Some(_)))) && step->Respond_0->file == file,
{
}

/// The index of a directory is looked for inside it: the names of its path lie below
/// the root when those of the directory do.
pub proof fn law_index_is_looked_for_below_root(canonical: Seq<u8>, is_dir: bool, root: Seq<u8>)
    requires
        is_below(canonical, root),
        canonical.len() > 0,
    ensures
        is_below(served_path(canonical, is_dir), root),
{
    if is_dir {
        reveal_strlit("index.html");
        is_ascii_chars_encode_utf8("index.html"@);
        law_join_stays_below(canonical, text("index.html"));
        let all = components(served_path(canonical, is_dir));
        let upper = components(root);
        assert(upper =~= all.subrange(0, upper.len() as int));
    }
}

/// The index of a directory is an HTML page.
pub proof fn law_index_is_html(canonical: Seq<u8>)
    requires
        canonical.len() > 0,
    ensures
        content_type(served_path(canonical, true)) == "text/html; charset=utf-8"@,
{
    let dot = '.' as u8;
    let name = text("index.html");
    reveal_strlit("index.html");
    is_ascii_chars_encode_utf8("index.html"@);
    reveal_strlit("html");
    is_ascii_chars_encode_utf8("html"@);
    reveal_strlit(".");
    is_ascii_chars_encode_utf8("."@);
    reveal_strlit("..");
    is_ascii_chars_encode_utf8(".."@);
    assert(name.len() == 10 && text(".").len() == 1 && text("..").len() == 2);
    assert(forall|i: int| 0 <= i < 10 ==> name[i] != '/' as u8) by {
        assert forall|i: int| 0 <= i < 10 implies name[i] != '/' as u8 by {
            assert(i == 0 || i == 1 || i == 2 || i == 3 || i == 4 || i == 5 || i == 6 || i == 7 || i
                == 8 || i == 9);
        }
    }
    law_join_appends_name(canonical, name);
    let stem = name.take(5);
    let ext = text("html");
    assert(name =~= stem.push(dot) + ext);
    lemma_split_concat(stem, ext, dot);
    assert forall|i: int| 0 <= i < ext.len() implies ext[i] != dot by {
        assert(i == 0 || i == 1 || i == 2 || i == 3);
    }
    lemma_split_whole(ext, dot);
    assert forall|i: int| 0 <= i < stem.len() implies stem[i] != dot by {
        assert(i == 0 || i == 1 || i == 2 || i == 3 || i == 4);
    }
    lemma_split_whole(stem, dot);
    assert(split_spec(name, dot) =~= seq![stem, ext]);
    encode_utf8_valid_utf8("html"@);
    assert(ascii_lower_spec(ext) =~= ext) by {
        assert forall|i: int| 0 <= i < ext.len() implies lower(ext[i]) == ext[i] by {
            assert(i == 0 || i == 1 || i == 2 || i == 3);
        }
    }
}

/// A path is looked up as it stands: below the root, after one separator, byte for byte.
/// Only the separators that it starts with are left out.
pub proof fn law_candidate_is_exact(root: Seq<u8>, slashes: Seq<u8>, path: Seq<u8>)
    requires
        root.len() > 0,
        root.last() != '/' as u8,
        forall|i: int| 0 <= i < slashes.len() ==> slashes[i] == '/' as u8,
        path.len() > 0 ==> path[0] != '/' as u8,
    ensures
        candidate_path(slashes + path, root) == root + seq!['/' as u8] + path,
        candidate_path(slashes + path, root + seq!['/' as u8]) == root + seq!['/' as u8] + path,
        candidate_path(slashes + path, seq!['/' as u8]) == seq!['/' as u8] + path,
{
    law_trim_takes_off_separators(slashes, path, '/' as u8);
    law_join_is_exact(root, path);
}

/// Paths that differ are looked up at places that differ.
pub proof fn law_candidates_differ(root: Seq<u8>, a: Seq<u8>, b: Seq<u8>)
    requires
        root.len() > 0,
        root.last() != '/' as u8,
        a.len() > 0 ==> a[0] != '/' as u8,
        b.len() > 0 ==> b[0] != '/' as u8,
        a != b,
    ensures
        candidate_path(seq!['/' as u8] + a, root) != candidate_path(seq!['/' as u8] + b, root),
{
    let slash = seq!['/' as u8];
    law_candidate_is_exact(root, slash, a);
    law_candidate_is_exact(root, slash, b);
    let start = root + slash;
    assert((start + a).skip(start.len() as int) =~= a);
    assert((start + b).skip(start.len() as int) =~= b);
}

/// A piece of a split string stands between two separators, or at an end.
proof fn lemma_piece_stands_between(s: Seq<u8>, sep: u8, k: int)
    requires
        0 <= k < split_spec(s, sep).len(),
    ensures
        exists|a: Seq<u8>, b: Seq<u8>|
            s == #[trigger] (a + split_spec(s, sep)[k] + b) && (a.len() == 0 || a.last() == sep) && (
            b.len() == 0 || b[0] == sep),
    decreases s.len(),
{
    let all = split_spec(s, sep);
    let none = Seq::<u8>::empty();
    if s.len() == 0 {
        assert(s =~= none + all[k] + none);
    } else {
        let t = s.drop_last();
        let last = s.last();
        let before = split_spec(t, sep);
        lemma_split_nonempty(t, sep);
        assert(s =~= t.push(last));
        if last == sep && k == all.len() - 1 {
            assert(s =~= s + all[k] + none);
        } else {
            lemma_piece_stands_between(t, sep, k);
            let (a, b) = choose|a: Seq<u8>, b: Seq<u8>|
                t == #[trigger] (a + before[k] + b) && (a.len() == 0 || a.last() == sep) && (b.len()
                    == 0 || b[0] == sep);
            if last != sep && k == all.len() - 1 {
                lemma_last_piece_ends_the_string(t, sep);
                let c = choose|c: Seq<u8>|
                    t == #[trigger] (c + before.last()) && (c.len() == 0 || c.last() == sep);
                assert(s =~= c + all[k] + none);
            } else {
                assert(all[k] == before[k]);
                if last == sep {
                    assert(s =~= a + all[k] + b.push(last));
                    if b.len() > 0 {
                        assert(b.push(last)[0] == b[0]);
                    }
                } else {
                    if b.len() == 0 {
                        lemma_inner_piece_is_followed(t, sep, k);
                        let (c, d) = choose|c: Seq<u8>, d: Seq<u8>|
                            t == #[trigger] (c + before[k] + d) && (c.len() == 0 || c.last() == sep)
                                && d.len() > 0 && d[0] == sep;
                        assert(s =~= c + all[k] + d.push(last));
                        assert(d.push(last)[0] == d[0]);
                    } else {
                        assert(s =~= a + all[k] + b.push(last));
                        assert(b.push(last)[0] == b[0]);
                    }
                }
            }
        }
    }
}

/// The last piece of a split string ends it.
proof fn lemma_last_piece_ends_the_string(s: Seq<u8>, sep: u8)
    ensures
        split_spec(s, sep).len() >= 1,
        exists|a: Seq<u8>|
            s == #[trigger] (a + split_spec(s, sep).last()) && (a.len() == 0 || a.last() == sep),
    decreases s.len(),
{
    let all = split_spec(s, sep);
    let none = Seq::<u8>::empty();
    lemma_split_nonempty(s, sep);
    if s.len() == 0 {
        assert(s =~= none + all.last());
    } else {
        let t = s.drop_last();
        let before = split_spec(t, sep);
        lemma_split_nonempty(t, sep);
        assert(s =~= t.push(s.last()));
        if s.last() == sep {
            assert(s =~= s + all.last());
        } else {
            lemma_last_piece_ends_the_string(t, sep);
            let a = choose|a: Seq<u8>|
                t == #[trigger] (a + before.last()) && (a.len() == 0 || a.last() == sep);
            assert(s =~= a + all.last());
        }
    }
}

/// A piece that is not the last one is followed by a separator.
proof fn lemma_inner_piece_is_followed(s: Seq<u8>, sep: u8, k: int)
    requires
        0 <= k < split_spec(s, sep).len() - 1,
    ensures
        exists|a: Seq<u8>, b: Seq<u8>|
            s == #[trigger] (a + split_spec(s, sep)[k] + b) && (a.len() == 0 || a.last() == sep)
                && b.len() > 0 && b[0] == sep,
    decreases s.len(),
{
    let all = split_spec(s, sep);
    if s.len() > 0 {
        let t = s.drop_last();
        let last = s.last();
        let before = split_spec(t, sep);
        lemma_split_nonempty(t, sep);
        assert(s =~= t.push(last));
        assert(all[k] == before[k]);
        if k < before.len() - 1 {
            lemma_inner_piece_is_followed(t, sep, k);
            let (a, b) = choose|a: Seq<u8>, b: Seq<u8>|
                t == #[trigger] (a + before[k] + b) && (a.len() == 0 || a.last() == sep) && b.len() > 0
                    && b[0] == sep;
            assert(s =~= a + all[k] + b.push(last));
            assert(b.push(last)[0] == b[0]);
        } else {
            lemma_last_piece_ends_the_string(t, sep);
            let a = choose|a: Seq<u8>|
                t == #[trigger] (a + before.last()) && (a.len() == 0 || a.last() == sep);
            assert(s =~= a + all[k] + seq![last]);
        }
    }
}

/// A path names a parent directory exactly when `..` stands in it between separators, or
/// between one and an end; a longer name with dots does not.
pub proof fn law_parent_segment_is_two_dots(path: Seq<u8>)
    ensures
        has_parent_segment(path) <==> exists|a: Seq<u8>, b: Seq<u8>|
            path == #[trigger] (a + text("..") + b) && (a.len() == 0 || a.last() == '/' as u8) && (
            b.len() == 0 || b[0] == '/' as u8),
{
    let sep = '/' as u8;
    let dots = text("..");
    reveal_strlit("..");
    is_ascii_chars_encode_utf8(".."@);
    assert(dots =~= seq!['.' as u8, '.' as u8]);
    let all = split_spec(path, sep);
    if has_parent_segment(path) {
        let k = choose|k: int| 0 <= k < all.len() && all[k] == dots;
        assert(all[k] == dots);
        lemma_piece_stands_between(path, sep, k);
    }
    if exists|a: Seq<u8>, b: Seq<u8>|
        path == #[trigger] (a + dots + b) && (a.len() == 0 || a.last() == sep) && (b.len() == 0 || b[0]
            == sep) {
        let (a, b) = choose|a: Seq<u8>, b: Seq<u8>|
            path == #[trigger] (a + dots + b) && (a.len() == 0 || a.last() == sep) && (b.len() == 0
                || b[0] == sep);
        let rest = dots + b;
        lemma_split_whole(dots, sep);
        if b.len() == 0 {
            assert(rest =~= dots);
            assert(split_spec(rest, sep)[0] == dots);
        } else {
            assert(rest =~= dots.push(sep) + b.skip(1));
            lemma_split_concat(dots, b.skip(1), sep);
            assert(split_spec(rest, sep)[0] == dots);
        }
        lemma_split_nonempty(rest, sep);
        if a.len() == 0 {
            assert(path =~= rest);
            assert(all[0] == dots);
        } else {
            let c = a.drop_last();
            assert(path =~= c.push(sep) + rest);
            lemma_split_concat(c, rest, sep);
            let m = split_spec(c, sep).len() as int;
            assert(all[m] == split_spec(rest, sep)[0]);
        }
        assert(all.contains(dots));
    }
}

/// A file that is there is served: a path without a parent segment that resolves to a
/// file below the root ends in the response that sends this very file, with its size and
/// the type of its name.
pub proof fn law_existing_file_is_served<F>(
    path: Seq<u8>,
    root: Seq<u8>,
    start: LookupStep<F>,
    canonical: Vec<u8>,
    second: LookupStep<F>,
    third: LookupStep<F>,
    file: F,
    size: u64,
    last: LookupStep<F>,
)
    requires
        Lookup::starts(path, root, start),
        !has_parent_segment(path),
        is_below(canonical@, root),
        start matches LookupStep::Continue(first) ==> first.leads_to(
            FileEvent::Resolved(Ok(canonical)),
            root,
            second,
        ),
        second matches LookupStep::Continue(lookup) ==> lookup.leads_to(
            FileEvent::IsDirectory(false),
            root,
            third,
        ),
        third matches LookupStep::Continue(lookup) ==> lookup.leads_to(
            FileEvent::Opened(Ok((file, Some(size)))),
            root,
            last,
        ),
    ensures
        start matches LookupStep::Continue(Lookup::Resolve { candidate }) && candidate@
            == candidate_path(path, root),
        second matches LookupStep::Continue(Lookup::Inspect { canonical: seen }) && seen@ == canonical@,
        third matches LookupStep::Continue(Lookup::Open { target, .. }) && target@ == canonical@,
        last matches LookupStep::Respond(Response::File { header, file: sent }) && sent == file
            && header@ == head(ok_lines(content_type(canonical@), size)),
{
}

/// The index of a directory that is there is served: a directory below the root whose
/// index resolves to a file below the root ends in the response that sends this very
/// file as an HTML page.
pub proof fn law_existing_index_is_served<F>(
    root: Seq<u8>,
    canonical: Vec<u8>,
    second: LookupStep<F>,
    resolved: Vec<u8>,
    third: LookupStep<F>,
    file: F,
    size: u64,
    last: LookupStep<F>,
)
    requires
        canonical@.len() > 0,
        is_below(resolved@, root),
        (Lookup::Inspect { canonical }).leads_to(FileEvent::<F>::IsDirectory(true), root, second),
        second matches LookupStep::Continue(lookup) ==> lookup.leads_to(
            FileEvent::Resolved(Ok(resolved)),
            root,
            third,
        ),
        third matches LookupStep::Continue(lookup) ==> lookup.leads_to(
            FileEvent::Opened(Ok((file, Some(size)))),
            root,
            last,
        ),
    ensures
        second matches LookupStep::Continue(Lookup::ResolveIndex { index }) && index@ == joined_path(
            canonical@,
            text("index.html"),
        ),
        third matches LookupStep::Continue(Lookup::Open { target, .. }) && target@ == resolved@,
        last matches LookupStep::Respond(Response::File { header, file: sent }) && sent == file
            && header@ == head(ok_lines("text/html; charset=utf-8"@, size)),
{
    law_index_is_html(canonical@);
}

/// A lookup refuses for a reason, and each reason has its status: 404 for what is not
/// there, 403 for what leads out of the root or may not be read, 500 for the rest.
pub proof fn law_lookup_refuses_for_a_reason<F>(
    lookup: Lookup,
    event: FileEvent<F>,
    root: Seq<u8>,
    step: LookupStep<F>,
)
    requires
        lookup.leads_to(event, root, step),
    ensures
        match (lookup, event) {
            (Lookup::Resolve { .. }, FileEvent::Resolved(Ok(path))) => (step is Respond <==> !is_below(
                path@,
                root,
            )) && (step is Respond ==> step->Respond_0.is_error(403, "Forbidden", "403 Forbidden")),
            (Lookup::ResolveIndex { .. }, FileEvent::Resolved(Ok(path))) => (step is Respond
                <==> !is_below(path@, root)) && (step is Respond ==> step->Respond_0.is_error(
                403,
                "Forbidden",
                "403 Forbidden",
            )),
            (Lookup::Inspect { .. }, FileEvent::IsDirectory(_)) => step is Continue,
            (Lookup::Resolve { .. }, FileEvent::Resolved(Err(kind))) => step is Respond && (if kind
                == ErrorKind::NotFound || kind == ErrorKind::NotADirectory {
                step->Respond_0.is_error(404, "Not Found", "404 Not Found")
            } else {
                step->Respond_0.is_error(
                    500,
                    "Internal Server Error",
                    "500 Internal Server Error",
                )
            }),
            (Lookup::ResolveIndex { .. }, FileEvent::Resolved(Err(kind))) => step is Respond && (if kind
                == ErrorKind::NotFound || kind == ErrorKind::NotADirectory {
                step->Respond_0.is_error(404, "Not Found", "404 Not Found")
            } else if kind == ErrorKind::PermissionDenied {
                step->Respond_0.is_error(403, "Forbidden", "403 Forbidden")
            } else {
                step->Respond_0.is_error(
                    500,
                    "Internal Server Error",
                    "500 Internal Server Error",
                )
            }),
            (Lookup::Open { .. }, FileEvent::Opened(Err(kind))) => step is Respond && (if kind
                == ErrorKind::NotFound || kind == ErrorKind::NotADirectory {
                step->Respond_0.is_error(404, "Not Found", "404 Not Found")
            } else if kind == ErrorKind::PermissionDenied {
                step->Respond_0.is_error(403, "Forbidden", "403 Forbidden")
            } else {
                step->Respond_0.is_error(
                    500,
                    "Internal Server Error",
                    "500 Internal Server Error",
                )
            }),
            (Lookup::Open { .. }, FileEvent::Opened(Ok((_, Some(_))))) => step is Respond
                && step->Respond_0 is File,
            _ => step is Respond && step->Respond_0.is_error(
                500,
                "Internal Server Error",
                "500 Internal Server Error",
            ),
        },
{
}

/// A file has the type of its extension, whatever comes before it.
pub proof fn law_type_is_that_of_the_extension(dir: Seq<u8>, stem: Seq<u8>, ext: Seq<u8>)
    requires
        dir.len() > 0,
        stem.len() > 0,
        stem != seq!['.' as u8] || ext.len() > 0,
        forall|i: int| 0 <= i < stem.len() ==> stem[i] != '/' as u8,
        forall|i: int| 0 <= i < ext.len() ==> ext[i] != '/' as u8 && ext[i] != '.' as u8,
        valid_utf8(ext),
    ensures
        content_type(joined_path(dir, stem + seq!['.' as u8] + ext)) == mime_type(
            ascii_lower_spec(ext),
        ),
{
    law_extension_follows_the_last_dot(dir, stem, ext);
}

/// A file without an extension is sent as plain bytes.
pub proof fn law_no_extension_is_binary(dir: Seq<u8>, name: Seq<u8>)
    requires
        dir.len() > 0,
        name.len() > 0,
        forall|i: int| 0 <= i < name.len() ==> name[i] != '/' as u8 && name[i] != '.' as u8,
    ensures
        content_type(joined_path(dir, name)) == "application/octet-stream"@,
        content_type(joined_path(dir, seq!['.' as u8] + name)) == "application/octet-stream"@,
{
    law_no_extension_without_a_dot(dir, name);
    let none = Seq::<u8>::empty();
    assert(ascii_lower_spec(none) =~= none);
    lemma_known_extensions_are_named();
}

/// Every extension that the server knows has a letter.
proof fn lemma_known_extensions_are_named()
    ensures
        mime_type(Seq::<u8>::empty()) == "application/octet-stream"@,
{
    reveal_strlit("html");
    is_ascii_chars_encode_utf8("html"@);
    reveal_strlit("htm");
    is_ascii_chars_encode_utf8("htm"@);
    reveal_strlit("css");
    is_ascii_chars_encode_utf8("css"@);
    reveal_strlit("js");
    is_ascii_chars_encode_utf8("js"@);
    reveal_strlit("mjs");
    is_ascii_chars_encode_utf8("mjs"@);
    reveal_strlit("json");
    is_ascii_chars_encode_utf8("json"@);
    reveal_strlit("txt");
    is_ascii_chars_encode_utf8("txt"@);
    reveal_strlit("svg");
    is_ascii_chars_encode_utf8("svg"@);
    reveal_strlit("png");
    is_ascii_chars_encode_utf8("png"@);
    reveal_strlit("jpg");
    is_ascii_chars_encode_utf8("jpg"@);
    reveal_strlit("jpeg");
    is_ascii_chars_encode_utf8("jpeg"@);
    reveal_strlit("gif");
    is_ascii_chars_encode_utf8("gif"@);
    reveal_strlit("ico");
    is_ascii_chars_encode_utf8("ico"@);
    reveal_strlit("webp");
    is_ascii_chars_encode_utf8("webp"@);
    reveal_strlit("pdf");
    is_ascii_chars_encode_utf8("pdf"@);
    reveal_strlit("wasm");
    is_ascii_chars_encode_utf8("wasm"@);
    reveal_strlit("xml");
    is_ascii_chars_encode_utf8("xml"@);
}

/// [`serve_file`] refuses a path that names a parent directory, and looks up every other
/// one below the root.
pub proof fn law_serve_file_returns_the_candidate<F>(
    url_path: &str,
    root: &[u8],
    r: Result<Vec<u8>, Response<F>>,
)
    requires
        call_ensures(serve_file::<F>, (url_path, root), r),
    ensures
        r is Err <==> has_parent_segment(encode_utf8(url_path@)),
        r matches Ok(candidate) ==> candidate@ == candidate_path(encode_utf8(url_path@), root@),
        r matches Err(refusal) ==> refusal.is_error(403, "Forbidden", "403 Forbidden"),
{
}

/// [`confine`] and [`confine_index`] let a path pass exactly if it lies below the root,
/// and then as it stands.
pub proof fn law_confined_path_is_below_root<F>(
    found: Result<Vec<u8>, ErrorKind>,
    root: &[u8],
    r: Result<Vec<u8>, Response<F>>,
)
    requires
        call_ensures(confine::<F>, (found, root), r) || call_ensures(
            confine_index::<F>,
            (found, root),
            r,
        ),
    ensures
        r is Ok <==> found is Ok && is_below(found->Ok_0@, root@),
        r matches Ok(path) ==> path@ == found->Ok_0@,
        found is Ok && r is Err ==> r->Err_0.is_error(403, "Forbidden", "403 Forbidden"),
        found is Err && (found->Err_0 == ErrorKind::NotFound || found->Err_0
            == ErrorKind::NotADirectory) ==> r->Err_0.is_error(404, "Not Found", "404 Not Found"),
{
}

/// [`file_path`] leaves a file as it is and takes the index of a directory.
pub proof fn law_file_path_returns_the_index(canonical: Vec<u8>, is_dir: bool, r: Vec<u8>)
    requires
        call_ensures(file_path, (canonical, is_dir), r),
    ensures
        !is_dir ==> r@ == canonical@,
        is_dir ==> r@ == joined_path(canonical@, text("index.html")),
{
}

/// [`deliver`] sends a file that was opened and whose size is known, and refuses
/// everything else.
pub proof fn law_deliver_sends_the_file<F>(
    path: &[u8],
    opened: Result<(F, Option<u64>), ErrorKind>,
    r: Response<F>,
)
    requires
        call_ensures(deliver::<F>, (path, opened), r),
    ensures
        match opened {
            Ok((file, Some(size))) => r matches Response::File { header, file: sent } && sent == file
                && header@ == head(ok_lines(content_type(path@), size)),
            Ok((_, None)) => r.is_error(500, "Internal Server Error", "500 Internal Server Error"),
            Err(kind) => if kind == ErrorKind::NotFound || kind == ErrorKind::NotADirectory {
                r.is_error(404, "Not Found", "404 Not Found")
            } else if kind == ErrorKind::PermissionDenied {
                r.is_error(403, "Forbidden", "403 Forbidden")
            } else {
                r.is_error(500, "Internal Server Error", "500 Internal Server Error")
            },
        },
{
}

/// A lookup starts and goes on as its steps say.
pub proof fn law_lookup_returns_its_steps<F>(
    url_path: &str,
    root: &[u8],
    start: LookupStep<F>,
    lookup: Lookup,
    event: FileEvent<F>,
    step: LookupStep<F>,
)
    requires
        call_ensures(Lookup::start::<F>, (url_path, root), start),
        call_ensures(Lookup::step::<F>, (lookup, event, root), step),
    ensures
        Lookup::starts(encode_utf8(url_path@), root@, start),
        lookup.leads_to(event, root@, step),
{
}

/// A file whose extension is not UTF-8 is sent as plain bytes.
pub proof fn law_strange_extension_is_binary(dir: Seq<u8>, stem: Seq<u8>, ext: Seq<u8>)
    requires
        dir.len() > 0,
        stem.len() > 0,
        stem != seq!['.' as u8] || ext.len() > 0,
        forall|i: int| 0 <= i < stem.len() ==> stem[i] != '/' as u8,
        forall|i: int| 0 <= i < ext.len() ==> ext[i] != '/' as u8 && ext[i] != '.' as u8,
        !valid_utf8(ext),
    ensures
        content_type(joined_path(dir, stem + seq!['.' as u8] + ext)) == "application/octet-stream"@,
{
    law_extension_follows_the_last_dot(dir, stem, ext);
    let none = Seq::<u8>::empty();
    assert(ascii_lower_spec(none) =~= none);
    lemma_known_extensions_are_named();
}

} // verus!
