//! The whisper model registry: ids, file names and download URLs.
use vstd::prelude::*;
use vstd::string::StringExecFns;
use crate::strs::str_eq;

verus! {

pub const HF_BASE: &'static str = "https://huggingface.co/ggerganov/whisper.cpp/resolve/main";

/// The starter on-device model.
pub const DEFAULT_STT_MODEL_ID: &'static str = "base.en";

/// Emitted with download progress.
pub const MODEL_DOWNLOAD_EVENT: &'static str = "model-download";

/// One downloadable ggml model.
#[derive(Debug, Clone, Copy, PartialEq, Eq)]
pub struct ModelSpec {
    pub id: &'static str,
    pub file_name: &'static str,
    pub display_name: &'static str,
    pub size_bytes: u64,
    pub multilingual: bool,
    pub description: &'static str,
}

/// A model as shown in the models list.
#[derive(Debug, Clone, PartialEq, Eq)]
pub struct ModelInfoDto {
    pub id: &'static str,
    pub display_name: &'static str,
    pub file_name: &'static str,
    pub url: String,
    pub size_bytes: u64,
    pub multilingual: bool,
    pub description: &'static str,
    pub installed: bool,
    pub downloading: bool,
}

/// Progress of one model download.
#[derive(Debug, Clone, PartialEq, Eq)]
pub struct DownloadProgress {
    pub model_id: String,
    pub downloaded_bytes: u64,
    pub total_bytes: u64,
    pub done: bool,
    pub error: Option<String>,
}

/// Row `i` of the registry: id, file name, display name, size, multilingual.
pub open spec fn row(i: int) -> (Seq<char>, Seq<char>, Seq<char>, u64, bool) {
    if i == 0 {
        ("tiny.en"@, "ggml-tiny.en.bin"@, "Tiny (English)"@, 77_700_000, false)
    } else if i == 1 {
        ("base.en"@, "ggml-base.en.bin"@, "Base (English)"@, 148_000_000, false)
    } else if i == 2 {
        ("base"@, "ggml-base.bin"@, "Base (Multilingual)"@, 148_000_000, true)
    } else if i == 3 {
        ("small.en"@, "ggml-small.en.bin"@, "Small (English)"@, 488_000_000, false)
    } else if i == 4 {
        ("small"@, "ggml-small.bin"@, "Small (Multilingual)"@, 488_000_000, true)
    } else if i == 5 {
        (
            "large-v3-turbo-q5_0"@,
            "ggml-large-v3-turbo-q5_0.bin"@,
            "Large v3 Turbo (Quantized)"@,
            574_000_000,
            true,
        )
    } else {
        ("large-v3-turbo"@, "ggml-large-v3-turbo.bin"@, "Large v3 Turbo"@, 1_620_000_000, true)
    }
}

pub const REGISTRY_LEN: usize = 7;

pub open spec fn matches_row(m: ModelSpec, i: int) -> bool {
    &&& m.id@ == row(i).0
    &&& m.file_name@ == row(i).1
    &&& m.display_name@ == row(i).2
    &&& m.size_bytes == row(i).3
    &&& m.multilingual == row(i).4
}

/// The registry, in display order.
pub open spec fn registry_spec(r: Seq<ModelSpec>) -> bool {
    &&& r.len() == REGISTRY_LEN
    &&& forall|i: int| 0 <= i < REGISTRY_LEN ==> #[trigger] matches_row(r[i], i)
}

/// The models the app offers.
pub fn registry() -> (r: Vec<ModelSpec>)
    ensures
        registry_spec(r@),
{
    let mut r: Vec<ModelSpec> = Vec::new();
    r.push(
        ModelSpec {
            id: "tiny.en",
            file_name: "ggml-tiny.en.bin",
            display_name: "Tiny (English)",
            size_bytes: 77_700_000,
            multilingual: false,
            description: "Fastest, lowest accuracy. Good for quick tests.",
        },
    );
    r.push(
        ModelSpec {
            id: "base.en",
            file_name: "ggml-base.en.bin",
            display_name: "Base (English)",
            size_bytes: 148_000_000,
            multilingual: false,
            description: "Fast with decent accuracy. Good starting point.",
        },
    );
    r.push(
        ModelSpec {
            id: "base",
            file_name: "ggml-base.bin",
            display_name: "Base (Multilingual)",
            size_bytes: 148_000_000,
            multilingual: true,
            description: "Fast, supports ~100 languages.",
        },
    );
    r.push(
        ModelSpec {
            id: "small.en",
            file_name: "ggml-small.en.bin",
            display_name: "Small (English)",
            size_bytes: 488_000_000,
            multilingual: false,
            description: "Balanced speed and accuracy for English.",
        },
    );
    r.push(
        ModelSpec {
            id: "small",
            file_name: "ggml-small.bin",
            display_name: "Small (Multilingual)",
            size_bytes: 488_000_000,
            multilingual: true,
            description: "Balanced speed and accuracy, ~100 languages.",
        },
    );
    r.push(
        ModelSpec {
            id: "large-v3-turbo-q5_0",
            file_name: "ggml-large-v3-turbo-q5_0.bin",
            display_name: "Large v3 Turbo (Quantized)",
            size_bytes: 574_000_000,
            multilingual: true,
            description: "Best quality per MB. Recommended on Apple Silicon.",
        },
    );
    r.push(
        ModelSpec {
            id: "large-v3-turbo",
            file_name: "ggml-large-v3-turbo.bin",
            display_name: "Large v3 Turbo",
            size_bytes: 1_620_000_000,
            multilingual: true,
            description: "Highest quality, largest download.",
        },
    );
    r
}

/// The first registry row whose id is `id`.
pub open spec fn row_of(id: Seq<char>) -> Option<int> {
    if row(0).0 == id {
        Some(0)
    } else if row(1).0 == id {
        Some(1)
    } else if row(2).0 == id {
        Some(2)
    } else if row(3).0 == id {
        Some(3)
    } else if row(4).0 == id {
        Some(4)
    } else if row(5).0 == id {
        Some(5)
    } else if row(6).0 == id {
        Some(6)
    } else {
        None
    }
}

/// The registry entry with `id`, or an error naming the unknown id.
pub fn spec(id: &str) -> (r: Result<ModelSpec, String>)
    ensures
        match row_of(id@) {
            Some(i) => r is Ok && matches_row(r->Ok_0, i),
            None => r is Err && r->Err_0@ == "unknown model id: "@ + id@,
        },
{
    let reg = registry();
    let mut i: usize = 0;
    while i < reg.len()
        invariant
            i <= reg@.len(),
            registry_spec(reg@),
            forall|j: int| 0 <= j < i ==> (#[trigger] row(j)).0 != id@,
        decreases reg@.len() - i,
    {
        assert(matches_row(reg@[i as int], i as int));
        if str_eq(reg[i].id, id) {
            let m = reg[i];
            assert(matches_row(m, i as int) && row(i as int).0 == id@);
            return Ok(m);
        }
        i = i + 1;
    }
    let mut msg = String::from_str("unknown model id: ");
    msg.append(id);
    Err(msg)
}

/// Where a model downloads from: `HF_BASE/<file_name>`.
pub fn download_url(spec: &ModelSpec) -> (u: String)
    ensures
        u@ == HF_BASE@ + "/"@ + spec.file_name@,
{
    let mut u = String::from_str(HF_BASE);
    u.append("/");
    u.append(spec.file_name);
    u
}

/// The list row for a registry entry.
pub fn model_info(spec: &ModelSpec, installed: bool, downloading: bool) -> (d: ModelInfoDto)
    ensures
        d.id == spec.id,
        d.display_name == spec.display_name,
        d.file_name == spec.file_name,
        d.url@ == HF_BASE@ + "/"@ + spec.file_name@,
        d.size_bytes == spec.size_bytes,
        d.multilingual == spec.multilingual,
        d.description == spec.description,
        d.installed == installed,
        d.downloading == downloading,
{
    ModelInfoDto {
        id: spec.id,
        display_name: spec.display_name,
        file_name: spec.file_name,
        url: download_url(spec),
        size_bytes: spec.size_bytes,
        multilingual: spec.multilingual,
        description: spec.description,
        installed,
        downloading,
    }
}

/// Milliseconds between progress events while a download streams.
pub const PROGRESS_INTERVAL_MS: u64 = 250;

/// The size a download expects: the server's content length where it sends
/// one, else the registry's size.
pub fn download_total(content_length: Option<u64>, spec: &ModelSpec) -> (r: u64)
    ensures
        r == match content_length {
            Some(n) => n,
            None => spec.size_bytes,
        },
{
    match content_length {
        Some(n) => n,
        None => spec.size_bytes,
    }
}

/// The running state of one download.
pub struct DownloadTracker {
    pub total: u64,
    pub downloaded: u64,
    pub last_emit_ms: u64,
}

impl DownloadTracker {
    /// A download of `total` bytes starting at `now_ms`.
    pub fn new(total: u64, now_ms: u64) -> (t: Self)
        ensures
            t.total == total,
            t.downloaded == 0,
            t.last_emit_ms == now_ms,
    {
        DownloadTracker { total, downloaded: 0, last_emit_ms: now_ms }
    }

    /// Counts a written chunk and says whether a progress event is due: one
    /// at most every `PROGRESS_INTERVAL_MS` milliseconds.
    pub fn on_chunk(&mut self, len: u64, now_ms: u64) -> (emit: bool)
        requires
            old(self).downloaded + len <= u64::MAX,
        ensures
            final(self).total == old(self).total,
            final(self).downloaded == old(self).downloaded + len,
            emit <==> now_ms >= old(self).last_emit_ms && now_ms - old(self).last_emit_ms
                >= PROGRESS_INTERVAL_MS,
            final(self).last_emit_ms == (if emit {
                now_ms
            } else {
                old(self).last_emit_ms
            }),
    {
        self.downloaded = self.downloaded + len;
        if now_ms >= self.last_emit_ms && now_ms - self.last_emit_ms >= PROGRESS_INTERVAL_MS {
            self.last_emit_ms = now_ms;
            true
        } else {
            false
        }
    }

    /// The progress event while streaming.
    pub fn progress(&self, model_id: &str) -> (p: DownloadProgress)
        ensures
            p.model_id@ == model_id@,
            p.downloaded_bytes == self.downloaded,
            p.total_bytes == self.total,
            !p.done,
            p.error is None,
    {
        DownloadProgress {
            model_id: String::from_str(model_id),
            downloaded_bytes: self.downloaded,
            total_bytes: self.total,
            done: false,
            error: None,
        }
    }

    /// Whether the stream delivered the whole file: a known size must be
    /// reached, or the partial file is discarded with this error.
    pub fn check_complete(&self) -> (r: Result<(), String>)
        ensures
            (self.total > 0 && self.downloaded < self.total) <==> r is Err,
            r matches Err(m) ==> m@ == "download incomplete ("@ + crate::llm::decimal(
                self.downloaded as nat,
            ) + " of "@ + crate::llm::decimal(self.total as nat) + " bytes)"@,
    {
        if self.total > 0 && self.downloaded < self.total {
            let mut s = String::from_str("download incomplete (");
            let d = crate::llm::decimal_string(self.downloaded);
            s.append(d.as_str());
            s.append(" of ");
            let t = crate::llm::decimal_string(self.total);
            s.append(t.as_str());
            s.append(" bytes)");
            Err(s)
        } else {
            Ok(())
        }
    }
}

/// The last progress event of a download: complete at the registry size, or
/// failed with nothing counted and the error's message.
pub fn final_progress(spec: &ModelSpec, error: Option<String>) -> (p: DownloadProgress)
    ensures
        p.model_id@ == spec.id@,
        p.done,
        p.total_bytes == spec.size_bytes,
        p.error == error,
        p.downloaded_bytes == (if error is None {
            spec.size_bytes
        } else {
            0
        }),
{
    let downloaded = if error.is_none() {
        spec.size_bytes
    } else {
        0
    };
    DownloadProgress {
        model_id: String::from_str(spec.id),
        downloaded_bytes: downloaded,
        total_bytes: spec.size_bytes,
        done: true,
        error,
    }
}

/// The models being downloaded, by id; at most one download per model.
pub struct DownloadRegistry {
    active: Vec<String>,
}

impl DownloadRegistry {
    pub closed spec fn ids(&self) -> Seq<Seq<char>> {
        self.active@.map_values(|s: String| s@)
    }

    pub fn new() -> (r: Self)
        ensures
            r.ids() == Seq::<Seq<char>>::empty(),
            r.ids().no_duplicates(),
    {
        let r = DownloadRegistry { active: Vec::new() };
        assert(r.ids() =~= Seq::<Seq<char>>::empty());
        r
    }

    /// Whether `id` is downloading.
    pub fn is_downloading(&self, id: &str) -> (b: bool)
        ensures
            b == self.ids().contains(id@),
    {
        let mut i: usize = 0;
        while i < self.active.len()
            invariant
                i <= self.active@.len(),
                forall|j: int| 0 <= j < i ==> self.active@[j]@ != id@,
            decreases self.active@.len() - i,
        {
            if str_eq(self.active[i].as_str(), id) {
                assert(self.ids()[i as int] == id@);
                return true;
            }
            i = i + 1;
        }
        proof {
            if self.ids().contains(id@) {
                let j = choose|j: int| 0 <= j < self.ids().len() && self.ids()[j] == id@;
                assert(self.active@[j]@ == id@);
            }
        }
        false
    }

    /// Claims a download of `id`; refused while one is running.
    pub fn begin(&mut self, id: &str) -> (r: Result<(), String>)
        ensures
            old(self).ids().contains(id@) <==> r is Err,
            r matches Err(m) ==> m@ == id@ + " is already downloading"@,
            r is Ok ==> final(self).ids() == old(self).ids().push(id@),
            r is Err ==> final(self).ids() == old(self).ids(),
            old(self).ids().no_duplicates() ==> final(self).ids().no_duplicates(),
    {
        if self.is_downloading(id) {
            let mut s = String::from_str(id);
            s.append(" is already downloading");
            return Err(s);
        }
        self.active.push(String::from_str(id));
        assert(self.ids() =~= old(self).ids().push(id@));
        proof {
            if old(self).ids().no_duplicates() {
                lemma_push_no_duplicates(old(self).ids(), id@);
            }
        }
        Ok(())
    }

    /// Releases every claim on `id`.
    pub fn end(&mut self, id: &str)
        ensures
            final(self).ids() == old(self).ids().filter(|s: Seq<char>| s != id@),
            !final(self).ids().contains(id@),
            old(self).ids().no_duplicates() ==> final(self).ids().no_duplicates(),
    {
        let mut kept: Vec<String> = Vec::new();
        let mut i: usize = 0;
        while i < self.active.len()
            invariant
                i <= self.active@.len(),
                kept@.map_values(|s: String| s@) == self.active@.take(i as int).map_values(
                    |s: String| s@,
                ).filter(|s: Seq<char>| s != id@),
            decreases self.active@.len() - i,
        {
            let ghost before = kept@;
            proof {
                let t = self.active@.take(i + 1).map_values(|s: String| s@);
                assert(t.drop_last() =~= self.active@.take(i as int).map_values(|s: String| s@));
                reveal(Seq::filter);
            }
            if !str_eq(self.active[i].as_str(), id) {
                kept.push(self.active[i].clone());
                assert(kept@.map_values(|s: String| s@) =~= before.map_values(|s: String| s@).push(
                    self.active@[i as int]@,
                ));
            }
            i = i + 1;
        }
        assert(self.active@.take(i as int) =~= self.active@);
        self.active = kept;
        proof {
            let p = |s: Seq<char>| s != id@;
            if final(self).ids().contains(id@) {
                old(self).ids().lemma_filter_contains_rev(p, id@);
                let k = choose|k: int| 0 <= k < final(self).ids().len() && final(self).ids()[k] == id@;
                old(self).ids().lemma_filter_pred(p, k);
            }
            if old(self).ids().no_duplicates() {
                lemma_filter_no_duplicates(old(self).ids(), p);
            }
        }
    }
}

proof fn lemma_push_no_duplicates(s: Seq<Seq<char>>, x: Seq<char>)
    requires
        s.no_duplicates(),
        !s.contains(x),
    ensures
        s.push(x).no_duplicates(),
{
    let t = s.push(x);
    assert forall|i: int, j: int| 0 <= i < t.len() && 0 <= j < t.len() && i != j implies t[i]
        != t[j] by {
        if i == s.len() {
            assert(s[j] == t[j]);
        } else if j == s.len() {
            assert(s[i] == t[i]);
        }
    }
}

proof fn lemma_filter_no_duplicates(s: Seq<Seq<char>>, p: spec_fn(Seq<char>) -> bool)
    requires
        s.no_duplicates(),
    ensures
        s.filter(p).no_duplicates(),
    decreases s.len(),
{
    reveal(Seq::filter);
    if s.len() > 0 {
        let t = s.drop_last();
        assert(t.no_duplicates()) by {
            assert forall|i: int, j: int| 0 <= i < t.len() && 0 <= j < t.len() && i != j implies t[i]
                != t[j] by {
                assert(t[i] == s[i] && t[j] == s[j]);
            }
        }
        lemma_filter_no_duplicates(t, p);
        assert(s.filter(p) == (if p(s.last()) {
            t.filter(p).push(s.last())
        } else {
            t.filter(p)
        }));
        if p(s.last()) {
            if t.filter(p).contains(s.last()) {
                t.lemma_filter_contains_rev(p, s.last());
                let m = choose|m: int| 0 <= m < t.len() && t[m] == s.last();
                assert(s[m] == s[s.len() - 1]);
            }
            lemma_push_no_duplicates(t.filter(p), s.last());
        }
    }
}

} // verus!
