//! Per-upload bookkeeping on the protocol front's side of the stream: the
//! running byte counter that refuses random access, and the size check at
//! close.

use vstd::prelude::*;

verus! {

/// One open inbound file handle: its client-side name, how many bytes have
/// been accepted so far, and the size the client announced, if any.
pub struct OpenFile {
    pub orig_filename: String,
    pub bytes_written: u64,
    pub expected_file_size: Option<u64>,
}

impl OpenFile {
    /// Opens the bookkeeping for one inbound file.
    pub fn new(orig_filename: String, expected_file_size: Option<u64>) -> (r: OpenFile)
        ensures
            r.orig_filename == orig_filename,
            r.bytes_written == 0,
            r.expected_file_size == expected_file_size,
    {
        OpenFile { orig_filename, bytes_written: 0, expected_file_size }
    }

    /// Accounts for a write carrying an offset.  The write is accepted
    /// exactly when it continues at the running byte counter: there is no
    /// random access and no seeking.  A refused write leaves the counter
    /// unchanged; the caller aborts the upload.
    pub fn record_write(&mut self, offset: u64, len: u64) -> (ok: bool)
        requires
            old(self).bytes_written + len <= u64::MAX,
        ensures
            ok == (offset == old(self).bytes_written),
            ok ==> final(self).bytes_written == old(self).bytes_written + len,
            !ok ==> *final(self) == *old(self),
            final(self).orig_filename == old(self).orig_filename,
            final(self).expected_file_size == old(self).expected_file_size,
    {
        if offset != self.bytes_written {
            return false;
        }
        self.bytes_written = self.bytes_written + len;
        true
    }

    /// Whether the upload may close cleanly: if the client announced a
    /// size, the bytes written must match it exactly.
    pub fn size_matches_at_close(&self) -> (ok: bool)
        ensures
            ok == (match self.expected_file_size {
                Some(expected) => expected == self.bytes_written,
                None => true,
            }),
    {
        match self.expected_file_size {
            Some(expected) => expected == self.bytes_written,
            None => true,
        }
    }
}

} // verus!
