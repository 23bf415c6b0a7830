//! A builder for configuring how files are concatenated.
//!
//! `Concat` is the convenience layer over the merge core: its options map
//! onto a head skip, a tail skip, padding after every source, and an
//! optional forced newline, with one extra feature — prepending the first
//! source's header line to the result.

use vstd::prelude::*;

use crate::bytes::{first_at, NL};
use crate::error::{Error, ErrorKind};
use crate::merge::{spec_merge, views_of, FileMerger};
use crate::pad::{plan_of, Newline, Pad, PadPlan};
use crate::seeker::ByteSeeker;
use crate::skip::Skip;
use crate::util::{push_all, push_range};

verus! {

// Configuration carried by a `Concat` instance.
#[derive(Clone, Debug)]
struct ConcatOptions {
    skip_start: usize,
    skip_end: usize,
    header: bool,
    newline: bool,
    crlf: bool,
    padding: Option<Vec<u8>>,
}

/// A structure for configuring how files are concatenated.
///
/// Call [`Concat::new`], chain option setters, call [`Concat::open`] with
/// the paths to concatenate, and finally hand the sources' contents to
/// [`Concat::write`] for the assembled result.
#[derive(Clone, Debug)]
pub struct Concat {
    paths: Vec<String>,
    opts: ConcatOptions,
    view_into: bool,
}

/// The header of a source: its bytes up to and including the first line
/// feed, or all of it when it holds none.
pub open spec fn spec_header_of(s: Seq<u8>) -> Seq<u8> {
    if first_at(s, NL, 0) == -1 {
        s
    } else {
        s.subrange(0, first_at(s, NL, 0) + 1)
    }
}

/// The head skip a `Concat` configuration stands for.
pub open spec fn spec_concat_head(skip_start: nat) -> Option<Skip> {
    Option::Some(Skip::Lines(skip_start as usize))
}

/// The tail skip a `Concat` configuration stands for.
pub open spec fn spec_concat_tail(skip_end: nat) -> Option<Skip> {
    Option::Some(Skip::Lines(skip_end as usize))
}

/// The padding plan a `Concat` configuration stands for: the given bytes
/// after every source, nothing before the first.
pub open spec fn spec_concat_plan(padding: Option<Seq<u8>>) -> PadPlan {
    let p = match padding {
        Option::Some(b) => b,
        Option::None => Seq::empty(),
    };
    PadPlan { before: Seq::empty(), between: p, after: p }
}

/// The newline style a `Concat` configuration stands for.
pub open spec fn spec_concat_newline(newline: bool, crlf: bool) -> Option<Newline> {
    if newline {
        Option::Some(
            if crlf {
                Newline::Crlf
            } else {
                Newline::Lf
            },
        )
    } else {
        Option::None
    }
}

impl Concat {
    /// The configured paths.
    pub closed spec fn spec_paths(&self) -> Seq<String> {
        self.paths@
    }

    /// Lines skipped from the start of each source.
    pub closed spec fn spec_skip_start(&self) -> nat {
        self.opts.skip_start as nat
    }

    /// Lines skipped from the end of each source.
    pub closed spec fn spec_skip_end(&self) -> nat {
        self.opts.skip_end as nat
    }

    /// Whether the first source's header is prepended.
    pub closed spec fn spec_header(&self) -> bool {
        self.opts.header
    }

    /// Whether each source is forced to end with a newline.
    pub closed spec fn spec_newline(&self) -> bool {
        self.opts.newline
    }

    /// Whether forced newlines use CRLF instead of LF.
    pub closed spec fn spec_crlf(&self) -> bool {
        self.opts.crlf
    }

    /// The padding written after each source, if any.
    pub closed spec fn spec_padding(&self) -> Option<Seq<u8>> {
        match self.opts.padding {
            Option::Some(p) => Option::Some(p@),
            Option::None => Option::None,
        }
    }

    /// Whether any option requires looking into the sources rather than
    /// copying them whole.
    pub closed spec fn spec_view_into(&self) -> bool {
        self.view_into
    }

    /// The merged result this configuration stands for, over the given
    /// source contents: the optional header of the first source, then the
    /// sources merged with the configured skips, padding after every
    /// source, and the optional forced newline.
    pub open spec fn spec_result(&self, sources: Seq<Seq<u8>>) -> Result<Seq<u8>, ErrorKind> {
        match spec_merge(
            sources,
            spec_concat_head(self.spec_skip_start()),
            spec_concat_tail(self.spec_skip_end()),
            spec_concat_plan(self.spec_padding()),
            spec_concat_newline(self.spec_newline(), self.spec_crlf()),
        ) {
            Result::Err(k) => Result::Err(k),
            Result::Ok(merged) => Result::Ok(
                if self.spec_header() {
                    spec_header_of(sources[0]) + merged
                } else {
                    merged
                },
            ),
        }
    }

    /// Constructs a new empty `Concat` instance: no paths, no options set.
    pub fn new() -> (c: Concat)
        ensures
            c.spec_paths() == Seq::<String>::empty(),
            c.spec_skip_start() == 0,
            c.spec_skip_end() == 0,
            !c.spec_header(),
            !c.spec_newline(),
            !c.spec_crlf(),
            c.spec_padding() is None,
            !c.spec_view_into(),
    {
        Concat {
            paths: Vec::new(),
            opts: ConcatOptions {
                skip_start: 0,
                skip_end: 0,
                header: false,
                newline: false,
                crlf: false,
                padding: Option::None,
            },
            view_into: false,
        }
    }

    /// Fills a `Concat` instance with the given paths, keeping the current
    /// options.  The paths are not checked for validity.
    pub fn open(&self, paths: Vec<String>) -> (c: Concat)
        ensures
            c.spec_paths() == paths@,
            c.spec_skip_start() == self.spec_skip_start(),
            c.spec_skip_end() == self.spec_skip_end(),
            c.spec_header() == self.spec_header(),
            c.spec_newline() == self.spec_newline(),
            c.spec_crlf() == self.spec_crlf(),
            c.spec_padding() == self.spec_padding(),
            c.spec_view_into() == (self.spec_newline() || self.spec_header()
                || self.spec_skip_start() != 0 || self.spec_skip_end() != 0),
    {
        let view_into = self.opts.newline || self.opts.header || self.opts.skip_start != 0
            || self.opts.skip_end != 0;
        Concat { paths, opts: clone_options(&self.opts), view_into }
    }

    /// Sets the option to append a newline to each source that does not
    /// already end with one.  Returns the instance for chaining.
    pub fn newline(&mut self, newline: bool) -> (r: &mut Self)
        ensures
            r.spec_newline() == newline,
            r.spec_paths() == old(self).spec_paths(),
            r.spec_skip_start() == old(self).spec_skip_start(),
            r.spec_skip_end() == old(self).spec_skip_end(),
            r.spec_header() == old(self).spec_header(),
            r.spec_crlf() == old(self).spec_crlf(),
            r.spec_padding() == old(self).spec_padding(),
            r.spec_view_into() == old(self).spec_view_into(),
            *final(self) == *final(r),
    {
        self.opts.newline = newline;
        self
    }

    /// Controls how many lines are skipped from the beginning of each
    /// source while concatenating.
    pub fn skip_start(&mut self, skip: usize) -> (r: &mut Self)
        ensures
            r.spec_skip_start() == skip,
            r.spec_paths() == old(self).spec_paths(),
            r.spec_skip_end() == old(self).spec_skip_end(),
            r.spec_header() == old(self).spec_header(),
            r.spec_newline() == old(self).spec_newline(),
            r.spec_crlf() == old(self).spec_crlf(),
            r.spec_padding() == old(self).spec_padding(),
            r.spec_view_into() == old(self).spec_view_into(),
            *final(self) == *final(r),
    {
        self.opts.skip_start = skip;
        self
    }

    /// Controls how many lines are skipped from the end of each source
    /// while concatenating.
    pub fn skip_end(&mut self, skip: usize) -> (r: &mut Self)
        ensures
            r.spec_skip_end() == skip,
            r.spec_paths() == old(self).spec_paths(),
            r.spec_skip_start() == old(self).spec_skip_start(),
            r.spec_header() == old(self).spec_header(),
            r.spec_newline() == old(self).spec_newline(),
            r.spec_crlf() == old(self).spec_crlf(),
            r.spec_padding() == old(self).spec_padding(),
            r.spec_view_into() == old(self).spec_view_into(),
            *final(self) == *final(r),
    {
        self.opts.skip_end = skip;
        self
    }

    /// Sets the option to extract each source's header and put the first
    /// extracted header at the beginning of the result.  Also sets
    /// `skip_start` to one, so that headers are dropped from every source;
    /// set `skip_start` afterwards to skip more.
    pub fn header(&mut self, header: bool) -> (r: &mut Self)
        ensures
            r.spec_header() == header,
            r.spec_skip_start() == 1,
            r.spec_paths() == old(self).spec_paths(),
            r.spec_skip_end() == old(self).spec_skip_end(),
            r.spec_newline() == old(self).spec_newline(),
            r.spec_crlf() == old(self).spec_crlf(),
            r.spec_padding() == old(self).spec_padding(),
            r.spec_view_into() == old(self).spec_view_into(),
            *final(self) == *final(r),
    {
        self.opts.header = header;
        self.opts.skip_start = 1;
        self
    }

    /// Fills some padding between the contents of each source.
    pub fn pad_with(&mut self, padding: &Vec<u8>) -> (r: &mut Self)
        ensures
            r.spec_padding() == Option::Some(padding@),
            r.spec_paths() == old(self).spec_paths(),
            r.spec_skip_start() == old(self).spec_skip_start(),
            r.spec_skip_end() == old(self).spec_skip_end(),
            r.spec_header() == old(self).spec_header(),
            r.spec_newline() == old(self).spec_newline(),
            r.spec_crlf() == old(self).spec_crlf(),
            r.spec_view_into() == old(self).spec_view_into(),
            *final(self) == *final(r),
    {
        self.opts.padding = Option::Some(copy_bytes(padding));
        self
    }

    /// Uses CRLF for forced newlines instead of LF.
    pub fn use_crlf(&mut self, crlf: bool) -> (r: &mut Self)
        ensures
            r.spec_crlf() == crlf,
            r.spec_paths() == old(self).spec_paths(),
            r.spec_skip_start() == old(self).spec_skip_start(),
            r.spec_skip_end() == old(self).spec_skip_end(),
            r.spec_header() == old(self).spec_header(),
            r.spec_newline() == old(self).spec_newline(),
            r.spec_padding() == old(self).spec_padding(),
            r.spec_view_into() == old(self).spec_view_into(),
            *final(self) == *final(r),
    {
        self.opts.crlf = crlf;
        self
    }

    /// The configured paths, in order.
    pub fn paths(&self) -> (p: &Vec<String>)
        ensures
            p@ == self.spec_paths(),
    {
        &self.paths
    }

    /// Retrieves the header of the first source: its first line, including
    /// the terminating line feed when there is one.  Fails with
    /// `NothingPassed` when no sources are given.
    pub fn get_header(&self, sources: &Vec<Vec<u8>>) -> (r: Result<Vec<u8>, Error>)
        ensures
            match r {
                Ok(h) => sources@.len() > 0 && h@ == spec_header_of(sources@[0]@),
                Err(e) => sources@.len() == 0 && e.spec_kind() == ErrorKind::NothingPassed,
            },
    {
        if sources.len() == 0 {
            return Err(Error::new(ErrorKind::NothingPassed));
        }
        Ok(header_of(&sources[0]))
    }

    /// Concatenates the given source contents and returns the assembled
    /// output, exactly as `spec_result` describes: the optional header of
    /// the first source, then each source trimmed by the configured line
    /// skips, normalised to end with a newline when requested, and followed
    /// by the configured padding.
    pub fn write(&self, sources: &Vec<Vec<u8>>) -> (r: Result<Vec<u8>, Error>)
        ensures
            match r {
                Ok(out) => self.spec_result(views_of(sources@)) == Result::<
                    Seq<u8>,
                    ErrorKind,
                >::Ok(out@),
                Err(e) => self.spec_result(views_of(sources@)) == Result::<
                    Seq<u8>,
                    ErrorKind,
                >::Err(e.spec_kind()),
            },
    {
        let mut merger = FileMerger::new();
        merger.skip_head(Skip::Lines(self.opts.skip_start));
        merger.skip_tail(Skip::Lines(self.opts.skip_end));
        match &self.opts.padding {
            Option::Some(p) => {
                merger.pad_with(
                    Pad::Custom(Option::None, Option::Some(copy_bytes(p)), Option::Some(
                        copy_bytes(p),
                    )),
                );
            },
            Option::None => {},
        }
        if self.opts.newline {
            if self.opts.crlf {
                merger.force_ending_newline(Newline::Crlf);
            } else {
                merger.force_ending_newline(Newline::Lf);
            }
        }
        proof {
            assert(plan_of(merger.spec_pad()) == spec_concat_plan(self.spec_padding()));
        }
        match merger.merge(sources) {
            Err(e) => Err(e),
            Ok(merged) => {
                if self.opts.header {
                    let mut out = header_of(&sources[0]);
                    push_all(&mut out, &merged);
                    Ok(out)
                } else {
                    Ok(merged)
                }
            },
        }
    }
}

/// Copies a byte vector.
fn copy_bytes(src: &Vec<u8>) -> (r: Vec<u8>)
    ensures
        r@ == src@,
{
    let mut r: Vec<u8> = Vec::new();
    push_all(&mut r, src);
    r
}

// Clones a `ConcatOptions`, preserving every field.
fn clone_options(opts: &ConcatOptions) -> (r: ConcatOptions)
    ensures
        r.skip_start == opts.skip_start,
        r.skip_end == opts.skip_end,
        r.header == opts.header,
        r.newline == opts.newline,
        r.crlf == opts.crlf,
        match (r.padding, opts.padding) {
            (Option::Some(a), Option::Some(b)) => a@ == b@,
            (Option::None, Option::None) => true,
            _ => false,
        },
{
    ConcatOptions {
        skip_start: opts.skip_start,
        skip_end: opts.skip_end,
        header: opts.header,
        newline: opts.newline,
        crlf: opts.crlf,
        padding: match &opts.padding {
            Option::Some(p) => Option::Some(copy_bytes(p)),
            Option::None => Option::None,
        },
    }
}

/// The first line of a source, including its line feed when present.
fn header_of(content: &Vec<u8>) -> (r: Vec<u8>)
    ensures
        r@ == spec_header_of(content@),
{
    let mut sk = ByteSeeker::new(content);
    let mut r: Vec<u8> = Vec::new();
    match sk.seek(NL) {
        Ok(i) => {
            proof {
                crate::bytes::lemma_first_at(content@, NL, 0);
            }
            let len = content.len();
            assert(i < len);
            push_range(&mut r, content, 0, i + 1);
        },
        Err(_) => {
            push_range(&mut r, content, 0, content.len());
            proof {
                assert(content@.subrange(0, content@.len() as int) =~= content@);
            }
        },
    }
    r
}

} // verus!
