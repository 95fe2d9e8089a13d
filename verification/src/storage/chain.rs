//! The chain of backends that a configuration names, such as `file->s3`.

use crate::error::StoreError;
use crate::storage::replicated::Replicated;
use vstd::prelude::*;
use vstd::string::*;

verus! {

/// A backend, or a replicated pair of chains of backends.
#[derive(Debug, PartialEq, Eq)]
pub enum BackendChain {
    /// The backend that keeps the document in a local file.
    File,
    /// The backend that keeps the document as an object of a bucket.
    S3,
    /// Two chains that replicate one document.
    Replicated(Box<Replicated<BackendChain, BackendChain>>),
}

/// The bytes of `file`.
pub open spec fn file_name() -> Seq<u8> {
    seq![102u8, 105u8, 108u8, 101u8]
}

/// The bytes of `s3`.
pub open spec fn s3_name() -> Seq<u8> {
    seq![115u8, 51u8]
}

/// The backend that `name` names, where it names one.
pub open spec fn backend_named(name: Seq<u8>) -> Option<BackendChain> {
    if name == file_name() {
        Some(BackendChain::File)
    } else if name == s3_name() {
        Some(BackendChain::S3)
    } else {
        None
    }
}

/// The index at which the first `->` of `text` begins, or the length of
/// `text` where there is none.
pub open spec fn find_arrow(text: Seq<u8>) -> int
    decreases text.len(),
{
    if text.len() < 2 {
        text.len() as int
    } else if text[0] == 45 && text[1] == 62 {
        0
    } else {
        1 + find_arrow(text.drop_first())
    }
}

/// The parts of `text` between its arrows `->`, from left to right. A text
/// without an arrow is its own single part.
pub open spec fn segments(text: Seq<u8>) -> Seq<Seq<u8>>
    decreases text.len(),
    via segments_decreases
{
    let arrow = find_arrow(text);
    if arrow >= text.len() {
        seq![text]
    } else {
        seq![text.subrange(0, arrow)] + segments(text.subrange(arrow + 2, text.len() as int))
    }
}

#[via_fn]
proof fn segments_decreases(text: Seq<u8>) {
    lemma_find_arrow(text);
}

/// `chain` with `next` replicated behind it: `next` alone where there is no
/// chain yet, no change where `next` names no backend.
pub open spec fn extended(chain: Option<BackendChain>, next: Option<BackendChain>) -> Option<
    BackendChain,
> {
    match (chain, next) {
        (_, None) => chain,
        (None, Some(backend)) => Some(backend),
        (Some(before), Some(backend)) => Some(
            BackendChain::Replicated(Box::new(Replicated { primary: before, secondary: backend })),
        ),
    }
}

/// The chain that `names` come to, folded from left to right: each name that
/// names a backend is replicated behind the chain of the names before it, and
/// every other name is passed over.
pub open spec fn chain_of(names: Seq<Seq<u8>>) -> Option<BackendChain>
    decreases names.len(),
{
    if names.len() == 0 {
        None
    } else {
        extended(chain_of(names.drop_last()), backend_named(names.last()))
    }
}

/// `find_arrow` stops at the first arrow and nowhere before.
pub proof fn lemma_find_arrow(text: Seq<u8>)
    ensures
        0 <= find_arrow(text) <= text.len(),
        find_arrow(text) < text.len() ==> find_arrow(text) + 2 <= text.len() && text[find_arrow(
            text,
        )] == 45 && text[find_arrow(text) + 1] == 62,
        forall|j: int|
            0 <= j < find_arrow(text) && j + 1 < text.len() ==> !(#[trigger] text[j] == 45 && text[j
                + 1] == 62),
    decreases text.len(),
{
    if text.len() >= 2 && !(text[0] == 45 && text[1] == 62) {
        let rest = text.drop_first();
        lemma_find_arrow(rest);
        assert forall|j: int| 0 <= j < find_arrow(text) && j + 1 < text.len() implies !(
        #[trigger] text[j] == 45 && text[j + 1] == 62) by {
            if j > 0 {
                assert(rest[j - 1] == text[j]);
                assert(rest[j] == text[j + 1]);
            }
        }
    }
}

/// Where the first arrow of `text` begins.
fn first_arrow(text: &[u8], from: usize) -> (at: usize)
    requires
        from <= text@.len(),
    ensures
        at == from + find_arrow(text@.subrange(from as int, text@.len() as int)),
        from <= at <= text@.len(),
{
    let ghost rest = text@.subrange(from as int, text@.len() as int);
    let mut i: usize = from;
    while i < text.len() && !(text[i] == 45 && i + 1 < text.len() && text[i + 1] == 62)
        invariant
            from <= i <= text@.len(),
            rest == text@.subrange(from as int, text@.len() as int),
            forall|j: int|
                0 <= j < i - from && j + 1 < rest.len() ==> !(#[trigger] rest[j] == 45 && rest[j
                    + 1] == 62),
        decreases text@.len() - i,
    {
        i = i + 1;
    }
    proof {
        lemma_find_arrow(rest);
        let found = find_arrow(rest);
        if i < text.len() {
            assert(rest[i - from] == 45 && rest[i - from + 1] == 62);
            if found < i - from {
                assert(rest[found] == 45);
            }
        } else if found < rest.len() {
            assert(rest[found] == 45 && rest[found + 1] == 62);
        }
    }
    i
}

/// The backend that the bytes `text[from..to]` name.
fn backend_at(text: &[u8], from: usize, to: usize) -> (r: Option<BackendChain>)
    requires
        from <= to <= text@.len(),
    ensures
        r == backend_named(text@.subrange(from as int, to as int)),
{
    let ghost name = text@.subrange(from as int, to as int);
    if to - from == 4 && text[from] == 102 && text[from + 1] == 105 && text[from + 2] == 108
        && text[from + 3] == 101 {
        assert(name =~= file_name());
        Some(BackendChain::File)
    } else if to - from == 2 && text[from] == 115 && text[from + 1] == 51 {
        assert(name =~= s3_name());
        Some(BackendChain::S3)
    } else {
        proof {
            if name == file_name() {
                assert(name.len() == 4);
                assert(name[0] == text@[from as int] && name[1] == text@[from + 1] && name[2]
                    == text@[from + 2] && name[3] == text@[from + 3]);
            }
            if name == s3_name() {
                assert(name.len() == 2);
                assert(name[0] == text@[from as int] && name[1] == text@[from + 1]);
            }
        }
        None
    }
}

/// Reads a chain of backends, such as `file->s3`. The names stand between
/// arrows `->`; `file` and `s3` name a backend, every other name is passed
/// over. The first backend stands alone, and each further one is
/// replicated, as the secondary, behind the chain before it. A text that
/// names no backend is refused.
pub fn parse_storage(args: &str) -> (r: Result<BackendChain, StoreError>)
    ensures
        match r {
            Ok(chain) => chain_of(segments(args.spec_bytes())) == Some(chain),
            Err(e) => chain_of(segments(args.spec_bytes())) is None && e == StoreError::ConfigError,
        },
{
    let text = args.as_bytes();
    let mut chain: Option<BackendChain> = None;
    let mut from: usize = 0;
    let ghost mut done: Seq<Seq<u8>> = Seq::empty();
    assert(text@.subrange(0, text@.len() as int) =~= text@);
    assert(done + segments(text@) =~= segments(text@));
    loop
        invariant_except_break
            segments(text@) == done + segments(text@.subrange(from as int, text@.len() as int)),
            chain == chain_of(done),
        invariant
            from <= text@.len(),
            text@ == args.spec_bytes(),
        ensures
            chain == chain_of(segments(text@)),
        decreases text@.len() - from,
    {
        let ghost rest = text@.subrange(from as int, text@.len() as int);
        let to = first_arrow(text, from);
        let next = backend_at(text, from, to);
        proof {
            lemma_find_arrow(rest);
            assert(rest.subrange(0, to - from) =~= text@.subrange(from as int, to as int));
            assert((done.push(rest.subrange(0, to - from))).drop_last() =~= done);
        }
        chain = match next {
            None => chain,
            Some(backend) => match chain {
                None => Some(backend),
                Some(before) => Some(
                    BackendChain::Replicated(Box::new(Replicated::new(before, backend))),
                ),
            },
        };
        if to >= text.len() {
            proof {
                assert(segments(rest) =~= seq![rest]);
                assert(done + seq![rest] =~= done.push(rest));
                assert(rest.subrange(0, to - from) =~= rest);
                assert(done.push(rest).drop_last() =~= done);
            }
            break ;
        }
        proof {
            let after = text@.subrange(to + 2, text@.len() as int);
            assert(rest.subrange(to - from + 2, rest.len() as int) =~= after);
            assert(done + (seq![rest.subrange(0, to - from)] + segments(after)) =~= done.push(
                rest.subrange(0, to - from),
            ) + segments(after));
            done = done.push(rest.subrange(0, to - from));
        }
        from = to + 2;
    }
    match chain {
        Some(chain) => Ok(chain),
        None => Err(StoreError::ConfigError),
    }
}

} // verus!
