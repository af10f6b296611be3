//! What a person is asked before a transfer.

use crate::mime::MediaKind;
use crate::text::{opt_view, seq_view};
use vstd::prelude::*;

verus! {

/// One file that a peer wants to send.
#[derive(Debug, Clone, PartialEq, Eq)]
pub struct IncomingFile {
    pub name: String,
    pub bytes: u64,
    pub mime: String,
    pub kind: MediaKind,
}

pub ghost struct IncomingFileView {
    pub name: Seq<char>,
    pub bytes: u64,
    pub mime: Seq<char>,
    pub kind: MediaKind,
}

impl View for IncomingFile {
    type V = IncomingFileView;

    open spec fn view(&self) -> IncomingFileView {
        IncomingFileView { name: self.name@, bytes: self.bytes, mime: self.mime@, kind: self.kind }
    }
}

/// A transfer that waits for a yes or no.
#[derive(Debug, Clone, PartialEq, Eq)]
pub struct TransferOffer {
    pub protocol: &'static str,
    pub peer: String,
    pub pin: Option<String>,
    pub files: Vec<IncomingFile>,
}

pub ghost struct TransferOfferView {
    pub protocol: Seq<char>,
    pub peer: Seq<char>,
    pub pin: Option<Seq<char>>,
    pub files: Seq<IncomingFileView>,
}

impl View for TransferOffer {
    type V = TransferOfferView;

    open spec fn view(&self) -> TransferOfferView {
        TransferOfferView {
            protocol: self.protocol@,
            peer: self.peer@,
            pin: opt_view(self.pin),
            files: seq_view(self.files@),
        }
    }
}

/// The sum of the sizes of the files.
pub open spec fn total_size(files: Seq<IncomingFileView>) -> nat
    decreases files.len(),
{
    if files.len() == 0 {
        0
    } else {
        total_size(files.drop_last()) + files.last().bytes as nat
    }
}

proof fn lemma_total_size_grows(files: Seq<IncomingFileView>, len: int)
    requires
        0 <= len <= files.len(),
    ensures
        total_size(files.take(len)) <= total_size(files),
    decreases files.len(),
{
    if len < files.len() {
        lemma_total_size_grows(files.drop_last(), len);
        assert(files.drop_last().take(len) =~= files.take(len));
    } else {
        assert(files.take(len) =~= files);
    }
}

impl TransferOffer {
    pub fn total_bytes(&self) -> (total: u64)
        requires
            total_size(self@.files) <= u64::MAX,
        ensures
            total == total_size(self@.files),
    {
        let mut total: u64 = 0;
        for i in 0..self.files.len()
            invariant
                self@.files.len() == self.files@.len(),
                total == total_size(self@.files.take(i as int)),
                total_size(self@.files) <= u64::MAX,
        {
            proof {
                let part = self@.files.take(i + 1);
                assert(part.drop_last() =~= self@.files.take(i as int));
                lemma_total_size_grows(self@.files, i + 1);
            }
            total = total + self.files[i].bytes;
        }
        assert(self@.files.take(self@.files.len() as int) =~= self@.files);
        total
    }
}

} // verus!
