//! The destination and the upload pipeline's bookkeeping: blob naming,
//! block-id assignment and the final commit arguments.
//!
//! The store accepts a blob as a series of staged blocks followed by a
//! commit of the ordered block-id list; the ids here are the block counter
//! as two big-endian bytes, so the order of the list is the order of the
//! stream.  The network calls themselves live with the runtime around the
//! library, which drives one [`Uploader`] per upload.

use vstd::prelude::*;

use crate::error::WuffError;
use crate::util::BlobStorageSpec;

verus! {

/// The ceiling on blocks per upload, matching the store's block-list limit;
/// it also keeps the block counter within `u16`.
pub const MAX_NUM_CHUNKS: usize = 50000;

/// Per-destination configuration.
#[derive(Debug)]
pub struct ConfigDestination {
    pub blob_storage_spec: BlobStorageSpec,
    pub initial_chunk_size: usize,
    pub max_chunk_size: usize,
}

/// The configured fallback for the first chunk's size: 16 KiB.
pub fn default_initial_chunk_size() -> (r: usize)
    ensures
        r == 16384,
{
    16384
}

/// The configured fallback for the chunk-size ceiling: 1 MiB.  Each
/// concurrent upload holds up to three buffers of this size: the two cycling
/// buffers, and the copy handed to the store.
pub fn default_max_chunk_size() -> (r: usize)
    ensures
        r == 1048576,
{
    1048576
}

/// One configured upload target: account, container and prefix, plus the
/// chunk-sizing policy.  The credential stays with the runtime that opens
/// the connection.
#[derive(Debug)]
pub struct Destination {
    pub name: String,
    pub storage_account: String,
    pub container: String,
    pub prefix: String,
    pub initial_chunk_size: usize,
    pub max_chunk_size: usize,
}

impl Destination {
    /// The sizing policy is sane: chunks start at one byte or more and the
    /// ceiling is no smaller than the start.
    pub open spec fn inv(self) -> bool {
        1 <= self.initial_chunk_size <= self.max_chunk_size
    }

    /// Builds a destination from its configuration.  Fails exactly when the
    /// chunk sizing is unusable.
    pub fn new(name: &str, cfg: &ConfigDestination) -> (r: Result<Destination, WuffError>)
        ensures
            match r {
                Ok(d) => {
                    &&& d.inv()
                    &&& d.name@ == name@
                    &&& d.storage_account@ == cfg.blob_storage_spec.storage_account@
                    &&& d.container@ == cfg.blob_storage_spec.container@
                    &&& d.prefix@ == cfg.blob_storage_spec.prefix@
                    &&& d.initial_chunk_size == cfg.initial_chunk_size
                    &&& d.max_chunk_size == cfg.max_chunk_size
                    &&& 1 <= cfg.initial_chunk_size <= cfg.max_chunk_size
                },
                Err(_) => !(1 <= cfg.initial_chunk_size <= cfg.max_chunk_size),
            },
    {
        if cfg.initial_chunk_size < 1 || cfg.max_chunk_size < cfg.initial_chunk_size {
            return Err(WuffError::new("invalid chunk sizes"));
        }
        Ok(
            Destination {
                name: name.to_owned(),
                storage_account: cfg.blob_storage_spec.storage_account.clone(),
                container: cfg.blob_storage_spec.container.clone(),
                prefix: cfg.blob_storage_spec.prefix.clone(),
                initial_chunk_size: cfg.initial_chunk_size,
                max_chunk_size: cfg.max_chunk_size,
            },
        )
    }

    /// The name of the blob: the prefix, the timestamp, then `-` and the
    /// name hint if one is live, then the suffix.
    pub open spec fn spec_blob_name(
        self,
        second: u64,
        millisecond: u32,
        name_hint: Option<Seq<char>>,
        suffix: Seq<char>,
    ) -> Seq<char> {
        self.prefix@ + crate::util::spec_utc_rfc3339(second, millisecond) + (match name_hint {
            Some(h) => seq!['-'] + h,
            None => Seq::<char>::empty(),
        }) + suffix
    }

    /// Renders the name of the blob for an upload admitted at the given
    /// instant.
    pub fn blob_name(
        &self,
        second: u64,
        millisecond: u32,
        name_hint: &Option<String>,
        suffix: &str,
    ) -> (r: String)
        requires
            second <= crate::util::MAX_EPOCH_SECOND,
            millisecond < 1000,
        ensures
            r@ == self.spec_blob_name(
                second,
                millisecond,
                match name_hint {
                    Some(h) => Some(h@),
                    None => None,
                },
                suffix@,
            ),
    {
        let mut out = self.prefix.clone();
        let stamp = crate::util::system_time_to_utc_rfc3339(second, millisecond);
        out.append(stamp.as_str());
        match name_hint {
            Some(h) => {
                out.append("-");
                out.append(h.as_str());
                proof {
                    reveal_strlit("-");
                }
            },
            None => {},
        }
        out.append(suffix);
        proof {
            assert(out@ =~= self.spec_blob_name(
                second,
                millisecond,
                match name_hint {
                    Some(h) => Some(h@),
                    None => None,
                },
                suffix@,
            ));
        }
        out
    }

    /// Creates the chunker pair for one upload, sized by this destination's
    /// policy and capped at the store's block-list limit.
    pub fn make_chunker(&self) -> (r: (
        crate::chunker::Writer,
        crate::chunker::Reader,
        crate::chunker::ChunkerShared,
    ))
        requires
            self.inv(),
        ensures
            ({
                let (w, rd, sh) = r;
                &&& sh.inv()
                &&& w.wf()
                &&& w.linked(sh)
                &&& rd.linked(sh)
                &&& w.chunk_size == self.initial_chunk_size
                &&& w.max_chunk_size == self.max_chunk_size
                &&& w.max_num_chunks == MAX_NUM_CHUNKS
                &&& !w.done
                &&& w.written@ == Seq::<u8>::empty()
                &&& !rd.consumed_all_input
                &&& !rd.done
                &&& sh.result is Pending
                &&& sh.consumed@ == Seq::<u8>::empty()
            }),
    {
        crate::chunker::new(self.initial_chunk_size, self.max_chunk_size, MAX_NUM_CHUNKS)
    }
}

/// The destinations of a deployment, by name.
pub struct Destinations {
    pub destinations: Vec<(String, Destination)>,
}

impl Destinations {
    /// Every configured name appears once, and every destination is sound.
    pub open spec fn inv(self) -> bool {
        &&& forall|i: int, j: int|
            0 <= i < j < self.destinations@.len() ==> (#[trigger] self.destinations@[i].0)@ != (
            #[trigger] self.destinations@[j].0)@
        &&& forall|i: int|
            0 <= i < self.destinations@.len() ==> (#[trigger] self.destinations@[i].1).inv()
    }

    /// Builds one destination per configuration entry, in order.  Fails
    /// when two entries share a name or an entry's chunk sizing is
    /// unusable.
    pub fn new(configs: &Vec<(String, ConfigDestination)>) -> (r: Result<Destinations, WuffError>)
        ensures
            match r {
                Ok(ds) => {
                    &&& ds.inv()
                    &&& ds.destinations@.len() == configs@.len()
                    &&& forall|i: int|
                        0 <= i < configs@.len() ==> (#[trigger] ds.destinations@[i].0)@ == (
                        configs@[i].0)@
                },
                Err(_) => (exists|i: int, j: int|
                    0 <= i < j < configs@.len() && (#[trigger] configs@[i].0)@ == (
                    #[trigger] configs@[j].0)@) || (exists|i: int|
                    0 <= i < configs@.len() && !(1 <= (#[trigger] configs@[i].1).initial_chunk_size
                        <= configs@[i].1.max_chunk_size)),
            },
    {
        let mut destinations: Vec<(String, Destination)> = Vec::new();
        let mut i: usize = 0;
        while i < configs.len()
            invariant
                i <= configs@.len(),
                destinations@.len() == i,
                forall|k: int|
                    0 <= k < i ==> (#[trigger] destinations@[k].0)@ == (configs@[k].0)@,
                forall|k: int| 0 <= k < i ==> (#[trigger] destinations@[k].1).inv(),
                forall|k: int, l: int|
                    0 <= k < l < i ==> (#[trigger] configs@[k].0)@ != (#[trigger] configs@[l].0)@,
            decreases configs@.len() - i,
        {
            let name: &String = &configs[i].0;
            let cfg: &ConfigDestination = &configs[i].1;
            proof {
                assert(name@ == (configs@[i as int].0)@);
            }
            let mut j: usize = 0;
            while j < i
                invariant
                    j <= i < configs@.len(),
                    destinations@.len() == i,
                    name@ == (configs@[i as int].0)@,
                    forall|k: int|
                        0 <= k < i ==> (#[trigger] destinations@[k].0)@ == (configs@[k].0)@,
                    forall|k: int|
                        0 <= k < j ==> (#[trigger] destinations@[k].0)@ != (configs@[i as int].0)@,
                decreases i - j,
            {
                if crate::util::str_eq(destinations[j].0.as_str(), name.as_str()) {
                    proof {
                        let jj = j as int;
                        let ii = i as int;
                        assert(exists|a: int, b: int|
                            0 <= a < b < configs@.len() && (#[trigger] configs@[a].0)@ == (
                            #[trigger] configs@[b].0)@) by {
                            assert((configs@[jj].0)@ == (configs@[ii].0)@);
                        }
                    }
                    return Err(WuffError::new("duplicate destination name"));
                }
                j = j + 1;
            }
            proof {
                assert forall|k: int| 0 <= k < i implies (#[trigger] configs@[k].0)@ != (
                configs@[i as int].0)@ by {
                    assert((destinations@[k].0)@ == (configs@[k].0)@);
                    assert((destinations@[k].0)@ != (configs@[i as int].0)@);
                }
            }
            let destination = match Destination::new(name.as_str(), cfg) {
                Ok(d) => d,
                Err(e) => {
                    proof {
                        let ii = i as int;
                        assert(exists|a: int|
                            0 <= a < configs@.len() && !(1 <= (
                            #[trigger] configs@[a].1).initial_chunk_size
                                <= configs@[a].1.max_chunk_size)) by {
                            assert(!(1 <= configs@[ii].1.initial_chunk_size
                                <= configs@[ii].1.max_chunk_size));
                        }
                    }
                    return Err(e);
                },
            };
            destinations.push((name.clone(), destination));
            i = i + 1;
        }
        proof {
            assert forall|a: int, b: int| 0 <= a < b < destinations@.len() implies (
            #[trigger] destinations@[a].0)@ != (#[trigger] destinations@[b].0)@ by {
                assert((destinations@[a].0)@ == (configs@[a].0)@);
                assert((destinations@[b].0)@ == (configs@[b].0)@);
            }
        }
        Ok(Destinations { destinations })
    }

    /// Looks a destination up by name.
    pub fn get(&self, name: &str) -> (r: Option<&Destination>)
        ensures
            match r {
                Some(d) => exists|i: int|
                    0 <= i < self.destinations@.len() && (#[trigger] self.destinations@[i].0)@
                        == name@ && *d == self.destinations@[i].1,
                None => forall|i: int|
                    0 <= i < self.destinations@.len() ==> (#[trigger] self.destinations@[i].0)@
                        != name@,
            },
    {
        let mut i: usize = 0;
        while i < self.destinations.len()
            invariant
                i <= self.destinations@.len(),
                forall|k: int| 0 <= k < i ==> (#[trigger] self.destinations@[k].0)@ != name@,
            decreases self.destinations@.len() - i,
        {
            if crate::util::str_eq(self.destinations[i].0.as_str(), name) {
                return Some(&self.destinations[i].1);
            }
            i = i + 1;
        }
        None
    }
}

/// A block counter as two big-endian bytes.
pub open spec fn spec_u16_be(n: int) -> Seq<u8> {
    seq![(n / 256) as u8, (n % 256) as u8]
}

/// What the store is asked to commit at the end of one upload: the staged
/// block ids in order, the content hash, and the content type.
pub struct CommitRequest {
    pub block_ids: Vec<Vec<u8>>,
    pub content_md5: Vec<u8>,
    pub content_type: String,
}

/// The per-upload bookkeeping that pairs a chunker reader with the store's
/// block-upload protocol: each delivered chunk is staged under the next
/// block id, and the end of the stream commits the ordered list.
pub struct Uploader {
    pub blob_name: String,
    pub content_type: String,
    pub block_ids: Vec<Vec<u8>>,
}

impl Uploader {
    /// The staged block ids so far are `0, 1, ..., n-1` as big-endian
    /// `u16`, in that order, within the block-list limit.
    pub open spec fn inv(self) -> bool {
        &&& self.block_ids@.len() <= MAX_NUM_CHUNKS
        &&& forall|i: int|
            0 <= i < self.block_ids@.len() ==> (#[trigger] self.block_ids@[i])@ == spec_u16_be(i)
    }

    /// Starts the bookkeeping for one upload.
    pub fn new(blob_name: String, content_type: String) -> (r: Uploader)
        ensures
            r.inv(),
            r.blob_name == blob_name,
            r.content_type == content_type,
            r.block_ids@.len() == 0,
    {
        Uploader { blob_name, content_type, block_ids: Vec::new() }
    }

    /// Assigns the id under which the next chunk is staged: the running
    /// block counter as two big-endian bytes, appended to the list that the
    /// commit will send.
    pub fn next_block_id(&mut self) -> (r: Vec<u8>)
        requires
            old(self).inv(),
            old(self).block_ids@.len() < MAX_NUM_CHUNKS,
        ensures
            final(self).inv(),
            final(self).blob_name == old(self).blob_name,
            final(self).content_type == old(self).content_type,
            r@ == spec_u16_be(old(self).block_ids@.len() as int),
            final(self).block_ids@.len() == old(self).block_ids@.len() + 1,
            forall|i: int|
                0 <= i < old(self).block_ids@.len() ==> #[trigger] final(self).block_ids@[i]
                    == old(self).block_ids@[i],
            (final(self).block_ids@.last())@ == spec_u16_be(old(self).block_ids@.len() as int),
    {
        let n = self.block_ids.len();
        let hi: u8 = (n / 256) as u8;
        let lo: u8 = (n % 256) as u8;
        let mut id: Vec<u8> = Vec::new();
        id.push(hi);
        id.push(lo);
        let mut copy: Vec<u8> = Vec::new();
        copy.push(hi);
        copy.push(lo);
        proof {
            assert(id@ =~= spec_u16_be(n as int));
            assert(copy@ =~= id@);
        }
        self.block_ids.push(id);
        copy
    }

    /// The end of the stream: the ordered block-id list is committed with
    /// the streamed content hash and the configured content type.  The hash
    /// attached is exactly the digest the chunker reported.
    pub fn commit(self, content_md5: Vec<u8>) -> (r: CommitRequest)
        requires
            self.inv(),
        ensures
            r.block_ids == self.block_ids,
            r.content_md5 == content_md5,
            r.content_type == self.content_type,
            r.block_ids@.len() <= MAX_NUM_CHUNKS,
            forall|i: int|
                0 <= i < r.block_ids@.len() ==> (#[trigger] r.block_ids@[i])@ == spec_u16_be(i),
    {
        CommitRequest {
            block_ids: self.block_ids,
            content_md5,
            content_type: self.content_type,
        }
    }
}

/// Law: block ids are committed in counter order, `0, 1, ..., N-1`, each as
/// the two big-endian bytes of the counter.
pub proof fn lemma_block_ids_in_order(u: Uploader, i: int)
    requires
        u.inv(),
        0 <= i < u.block_ids@.len(),
    ensures
        u.block_ids@[i]@ == seq![(i / 256) as u8, (i % 256) as u8],
{
}

} // verus!

