//! The MIME resolver: a read-only table from lowercased filename extension
//! to the blob-name suffix and content type used for the upload.  Lookup
//! splits the filename at the last `.`; unknown extensions make the caller
//! refuse the upload.

use vstd::prelude::*;

use crate::error::WuffError;

verus! {

/// One configured entry: an optional suffix override and the content type.
#[derive(Debug)]
pub struct ConfigMimeType {
    pub override_suffix: Option<String>,
    pub content_type: String,
}

/// One enriched entry: the suffix appended to blob names and the content
/// type sent with the commit.
#[derive(Debug)]
pub struct ConfigMimeTypeEnriched {
    pub suffix: String,
    pub content_type: String,
}

impl ConfigMimeTypeEnriched {
    /// An exact copy of the entry.
    pub fn duplicate(&self) -> (r: ConfigMimeTypeEnriched)
        ensures
            r == *self,
    {
        ConfigMimeTypeEnriched {
            suffix: self.suffix.clone(),
            content_type: self.content_type.clone(),
        }
    }
}

/// What a string lowercases to.
pub uninterp spec fn lower_of(s: Seq<char>) -> Seq<char>;

/// Relies on `str::to_lowercase`: the result depends on the characters
/// alone, and an empty string stays empty.
#[verifier::external_body]
fn lowercase(s: &str) -> (r: String)
    ensures
        r@ == lower_of(s@),
        s@.len() == 0 ==> r@.len() == 0,
{
    s.to_lowercase()
}

/// The built-in table used when the configuration names none, covering the
/// formats office scanners produce.
pub fn default_mime_types() -> (r: Vec<(String, ConfigMimeType)>)
    ensures
        r@.len() == 6,
        (r@[0].0)@ == "pdf"@ && r@[0].1.override_suffix is None && (r@[0].1.content_type)@
            == "application/pdf"@,
        (r@[1].0)@ == "jpg"@ && r@[1].1.override_suffix is None && (r@[1].1.content_type)@
            == "image/jpeg"@,
        (r@[2].0)@ == "jpeg"@ && (r@[2].1.override_suffix matches Some(s) && s@ == ".jpg"@) && (
        r@[2].1.content_type)@ == "image/jpeg"@,
        (r@[3].0)@ == "png"@ && r@[3].1.override_suffix is None && (r@[3].1.content_type)@
            == "image/png"@,
        (r@[4].0)@ == "tiff"@ && r@[4].1.override_suffix is None && (r@[4].1.content_type)@
            == "image/tiff"@,
        (r@[5].0)@ == "tif"@ && (r@[5].1.override_suffix matches Some(s) && s@ == ".tiff"@) && (
        r@[5].1.content_type)@ == "image/tiff"@,
{
    let mut mime_types: Vec<(String, ConfigMimeType)> = Vec::new();
    mime_types.push(
        (
            "pdf".to_owned(),
            ConfigMimeType { override_suffix: None, content_type: "application/pdf".to_owned() },
        ),
    );
    mime_types.push(
        (
            "jpg".to_owned(),
            ConfigMimeType { override_suffix: None, content_type: "image/jpeg".to_owned() },
        ),
    );
    mime_types.push(
        (
            "jpeg".to_owned(),
            ConfigMimeType {
                override_suffix: Some(".jpg".to_owned()),
                content_type: "image/jpeg".to_owned(),
            },
        ),
    );
    mime_types.push(
        (
            "png".to_owned(),
            ConfigMimeType { override_suffix: None, content_type: "image/png".to_owned() },
        ),
    );
    mime_types.push(
        (
            "tiff".to_owned(),
            ConfigMimeType { override_suffix: None, content_type: "image/tiff".to_owned() },
        ),
    );
    mime_types.push(
        (
            "tif".to_owned(),
            ConfigMimeType {
                override_suffix: Some(".tiff".to_owned()),
                content_type: "image/tiff".to_owned(),
            },
        ),
    );
    mime_types
}

/// Splitting a string at its last `.`: the part before and the part after,
/// or nothing if there is no `.` at all.
pub open spec fn spec_rsplit_dot(s: Seq<char>) -> Option<(Seq<char>, Seq<char>)>
    decreases s.len(),
{
    if s.len() == 0 {
        None
    } else if s.last() == '.' {
        Some((s.drop_last(), Seq::<char>::empty()))
    } else {
        match spec_rsplit_dot(s.drop_last()) {
            Some(p) => Some((p.0, p.1.push(s.last()))),
            None => None,
        }
    }
}

proof fn lemma_rsplit_dot_at(s: Seq<char>, k: int)
    requires
        0 <= k < s.len(),
        s[k] == '.',
        forall|j: int| k < j < s.len() ==> s[j] != '.',
    ensures
        spec_rsplit_dot(s) == Some((s.take(k), s.skip(k + 1))),
    decreases s.len(),
{
    if k == s.len() - 1 {
        assert(s.last() == '.');
        assert(s.drop_last() =~= s.take(k));
        assert(s.skip(k + 1) =~= Seq::<char>::empty());
    } else {
        assert(s.last() != '.');
        lemma_rsplit_dot_at(s.drop_last(), k);
        let p = spec_rsplit_dot(s.drop_last())->Some_0;
        assert(s.drop_last().take(k) =~= s.take(k));
        assert(s.drop_last().skip(k + 1).push(s.last()) =~= s.skip(k + 1));
    }
}

proof fn lemma_rsplit_dot_none(s: Seq<char>)
    requires
        forall|j: int| 0 <= j < s.len() ==> s[j] != '.',
    ensures
        spec_rsplit_dot(s) is None,
    decreases s.len(),
{
    if s.len() > 0 {
        lemma_rsplit_dot_none(s.drop_last());
    }
}

/// The enriched MIME table: lowercased extensions, each appearing once,
/// mapped to suffix and content type.
pub struct ConfigMimeTypesEnriched {
    pub entries: Vec<(String, ConfigMimeTypeEnriched)>,
}

impl ConfigMimeTypesEnriched {
    /// Every extension appears once.
    pub open spec fn inv(self) -> bool {
        forall|i: int, j: int|
            0 <= i < j < self.entries@.len() ==> (#[trigger] self.entries@[i].0)@ != (
            #[trigger] self.entries@[j].0)@
    }

    /// The entry for a lowercased extension, if any.
    pub open spec fn spec_lookup(self, key: Seq<char>) -> Option<ConfigMimeTypeEnriched> {
        if exists|i: int| 0 <= i < self.entries@.len() && (#[trigger] self.entries@[i].0)@ == key {
            let i = choose|i: int|
                0 <= i < self.entries@.len() && (#[trigger] self.entries@[i].0)@ == key;
            Some(self.entries@[i].1)
        } else {
            None
        }
    }

    /// Enriches a configured table: extensions are lowercased, and the
    /// suffix defaults to `.` plus the lowercased extension where no
    /// override is given.  Fails exactly when two entries collide after
    /// lowercasing.
    pub fn try_from_config(config: &Vec<(String, ConfigMimeType)>) -> (r: Result<
        ConfigMimeTypesEnriched,
        WuffError,
    >)
        ensures
            match r {
                Ok(m) => {
                    &&& m.inv()
                    &&& m.entries@.len() == config@.len()
                    &&& forall|i: int|
                        0 <= i < config@.len() ==> (#[trigger] m.entries@[i].0)@ == lower_of(
                            (config@[i].0)@,
                        )
                    &&& forall|i: int|
                        0 <= i < config@.len() ==> ((#[trigger] m.entries@[i].1).suffix)@ == (
                        match config@[i].1.override_suffix {
                            Some(s) => s@,
                            None => seq!['.'] + lower_of((config@[i].0)@),
                        })
                    &&& forall|i: int|
                        0 <= i < config@.len() ==> ((#[trigger] m.entries@[i].1).content_type)@
                            == (config@[i].1.content_type)@
                    &&& forall|i: int, j: int|
                        0 <= i < j < config@.len() ==> lower_of((#[trigger] config@[i].0)@)
                            != lower_of((#[trigger] config@[j].0)@)
                },
                Err(_) => exists|i: int, j: int|
                    0 <= i < j < config@.len() && lower_of((#[trigger] config@[i].0)@) == lower_of(
                        (#[trigger] config@[j].0)@,
                    ),
            },
    {
        let mut entries: Vec<(String, ConfigMimeTypeEnriched)> = Vec::new();
        let mut i: usize = 0;
        while i < config.len()
            invariant
                i <= config@.len(),
                entries@.len() == i,
                forall|k: int|
                    0 <= k < i ==> (#[trigger] entries@[k].0)@ == lower_of((config@[k].0)@),
                forall|k: int|
                    0 <= k < i ==> ((#[trigger] entries@[k].1).suffix)@ == (
                    match config@[k].1.override_suffix {
                        Some(s) => s@,
                        None => seq!['.'] + lower_of((config@[k].0)@),
                    }),
                forall|k: int|
                    0 <= k < i ==> ((#[trigger] entries@[k].1).content_type)@ == (
                    config@[k].1.content_type)@,
                forall|k: int, l: int|
                    0 <= k < l < i ==> lower_of((#[trigger] config@[k].0)@) != lower_of(
                        (#[trigger] config@[l].0)@,
                    ),
            decreases config@.len() - i,
        {
            let ext: &String = &config[i].0;
            let cfg: &ConfigMimeType = &config[i].1;
            let extension = lowercase(ext.as_str());
            let mut j: usize = 0;
            while j < i
                invariant
                    j <= i < config@.len(),
                    entries@.len() == i,
                    extension@ == lower_of((config@[i as int].0)@),
                    forall|k: int|
                        0 <= k < i ==> (#[trigger] entries@[k].0)@ == lower_of((config@[k].0)@),
                    forall|k: int|
                        0 <= k < j ==> (#[trigger] entries@[k].0)@ != extension@,
                decreases i - j,
            {
                if crate::util::str_eq(entries[j].0.as_str(), extension.as_str()) {
                    proof {
                        let jj = j as int;
                        let ii = i as int;
                        assert(exists|a: int, b: int|
                            0 <= a < b < config@.len() && lower_of((#[trigger] config@[a].0)@)
                                == lower_of((#[trigger] config@[b].0)@)) by {
                            assert(lower_of((config@[jj].0)@) == lower_of((config@[ii].0)@));
                        }
                    }
                    return Err(WuffError::new("duplicate mime types"));
                }
                j = j + 1;
            }
            proof {
                assert forall|k: int| 0 <= k < i implies lower_of((#[trigger] config@[k].0)@)
                    != lower_of((config@[i as int].0)@) by {
                    assert((entries@[k].0)@ == lower_of((config@[k].0)@));
                    assert((entries@[k].0)@ != extension@);
                }
            }
            let suffix: String = match &cfg.override_suffix {
                Some(s) => s.clone(),
                None => {
                    let mut d = ".".to_owned();
                    d.append(extension.as_str());
                    proof {
                        reveal_strlit(".");
                        assert(d@ =~= seq!['.'] + lower_of((config@[i as int].0)@));
                    }
                    d
                },
            };
            let enriched = ConfigMimeTypeEnriched {
                suffix,
                content_type: cfg.content_type.clone(),
            };
            entries.push((extension, enriched));
            i = i + 1;
        }
        proof {
            assert forall|a: int, b: int| 0 <= a < b < entries@.len() implies (
            #[trigger] entries@[a].0)@ != (#[trigger] entries@[b].0)@ by {
                assert((entries@[a].0)@ == lower_of((config@[a].0)@));
                assert((entries@[b].0)@ == lower_of((config@[b].0)@));
            }
        }
        Ok(ConfigMimeTypesEnriched { entries })
    }

    /// Looks a filename up: the part after its last `.`, lowercased, keys
    /// the table.  A filename without a `.`, or with an unknown extension,
    /// has no entry.
    pub fn get(&self, filename: &str) -> (r: Option<ConfigMimeTypeEnriched>)
        requires
            self.inv(),
        ensures
            match spec_rsplit_dot(filename@) {
                Some(p) => r == self.spec_lookup(lower_of(p.1)),
                None => r is None,
            },
    {
        let n = filename.unicode_len();
        // Find the last `.`, scanning from the end.
        let mut i: usize = n;
        while i > 0
            invariant
                self.inv(),
                i <= n,
                n == filename@.len(),
                forall|j: int| i <= j < n ==> filename@[j] != '.',
            decreases i,
        {
            if filename.get_char(i - 1) == '.' {
                // Split there.
                let extension = filename.substring_char(i, n);
                proof {
                    lemma_rsplit_dot_at(filename@, i - 1);
                    assert(extension@ =~= filename@.skip(i as int));
                }
                let key = lowercase(extension);
                return self.lookup(key.as_str());
            }
            i = i - 1;
        }
        proof {
            lemma_rsplit_dot_none(filename@);
        }
        None
    }

    /// Looks a lowercased extension up in the table.
    fn lookup(&self, key: &str) -> (r: Option<ConfigMimeTypeEnriched>)
        requires
            self.inv(),
        ensures
            r == self.spec_lookup(key@),
    {
        let mut i: usize = 0;
        while i < self.entries.len()
            invariant
                self.inv(),
                i <= self.entries@.len(),
                forall|k: int| 0 <= k < i ==> (#[trigger] self.entries@[k].0)@ != key@,
            decreases self.entries@.len() - i,
        {
            if crate::util::str_eq(self.entries[i].0.as_str(), key) {
                let r = self.entries[i].1.duplicate();
                proof {
                    let witness = i as int;
                    assert(0 <= witness < self.entries@.len() && (
                    #[trigger] self.entries@[witness].0)@ == key@);
                    let c = choose|k: int|
                        0 <= k < self.entries@.len() && (#[trigger] self.entries@[k].0)@ == key@;
                    if c < witness {
                        assert((self.entries@[c].0)@ != (self.entries@[witness].0)@);
                    } else if c > witness {
                        assert((self.entries@[witness].0)@ != (self.entries@[c].0)@);
                    }
                }
                return Some(r);
            }
            i = i + 1;
        }
        None
    }
}

} // verus!
