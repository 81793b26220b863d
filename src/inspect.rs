//! A snapshot built from what the container runtime reports of an image.

use vstd::prelude::*;

use crate::model::{ImageSnapshot, LayerInfo, Timestamp};
use crate::text::{replace, replaced, trim, trimmed, truncate, truncated};

verus! {

/// Whether chrono can represent a time `secs` seconds after the Unix epoch.
pub uninterp spec fn utc_representable(secs: i64) -> bool;

/// Relies on `chrono::DateTime::from_timestamp`, which gives the time `secs`
/// seconds after the epoch, or nothing where it is out of chrono's range.
#[verifier::external_body]
fn utc_from_unix(secs: i64) -> (r: Option<Timestamp>)
    ensures
        r == if utc_representable(secs) {
            Some(Timestamp { secs, nanos: 0 })
        } else {
            None::<Timestamp>
        },
{
    chrono::DateTime::from_timestamp(secs, 0).map(
        |t| Timestamp { secs: t.timestamp(), nanos: t.timestamp_subsec_nanos() },
    )
}

/// The build command of a layer with the shell wrapping of the older builder
/// and the marker of BuildKit taken out.
pub open spec fn unwrapped_command(cmd: Seq<char>) -> Seq<char> {
    let a = replaced(cmd, "/bin/sh -c #(nop)  "@, ""@);
    let b = replaced(a, "/bin/sh -c #(nop) "@, ""@);
    let c = replaced(b, "/bin/sh -c "@, "RUN "@);
    let d = replaced(c, "RUN RUN "@, "RUN "@);
    replaced(d, " # buildkit"@, ""@)
}

/// A trimmed command as shown: `<layer>` when empty, else cut to 120 characters.
pub open spec fn shown_command(t: Seq<char>) -> Seq<char> {
    if t.len() == 0 {
        "<layer>"@
    } else {
        truncated(t, 120)
    }
}

/// A build command made readable for display.
pub open spec fn cleaned_command(cmd: Seq<char>) -> Seq<char> {
    shown_command(trimmed(unwrapped_command(cmd)))
}

/// Shows a trimmed command: `<layer>` when it is empty, and at most 120
/// characters of it otherwise.
pub fn show_command(t: &str) -> (r: String)
    ensures
        r@ == shown_command(t@),
{
    if t.unicode_len() == 0 {
        "<layer>".to_owned()
    } else {
        truncate(t, 120)
    }
}

/// Cleans up a build command for display: the `/bin/sh -c #(nop)` prefix of
/// metadata steps goes, `/bin/sh -c` becomes `RUN` (once, also where BuildKit
/// wrote `RUN` already), the BuildKit marker goes, and the rest is trimmed and
/// shown by `show_command`.
pub fn clean_command(cmd: &str) -> (r: String)
    ensures
        r@ == cleaned_command(cmd@),
{
    proof {
        reveal_strlit("/bin/sh -c #(nop)  ");
        reveal_strlit("/bin/sh -c #(nop) ");
        reveal_strlit("/bin/sh -c ");
        reveal_strlit("RUN RUN ");
        reveal_strlit(" # buildkit");
    }
    let a = replace(cmd, "/bin/sh -c #(nop)  ", "");
    let b = replace(a.as_str(), "/bin/sh -c #(nop) ", "");
    let c = replace(b.as_str(), "/bin/sh -c ", "RUN ");
    let d = replace(c.as_str(), "RUN RUN ", "RUN ");
    let e = replace(d.as_str(), " # buildkit", "");
    show_command(trim(e.as_str()))
}

/// The position of the first `:` in `s`, or -1.
pub open spec fn colon_index(s: Seq<char>) -> int
    decreases s.len(),
{
    if s.len() == 0 {
        -1
    } else if colon_index(s.drop_last()) >= 0 {
        colon_index(s.drop_last())
    } else if s.last() == ':' {
        s.len() - 1
    } else {
        -1
    }
}

/// An image reference split into name and tag: the name up to the first `:`,
/// the tag from there up to the next `:`, and `latest` without any `:`.
pub open spec fn split_image_ref(r: Seq<char>) -> (Seq<char>, Seq<char>) {
    let i = colon_index(r);
    if i < 0 {
        (r, "latest"@)
    } else {
        let rest = r.skip(i + 1);
        let j = colon_index(rest);
        (r.take(i), if j < 0 { rest } else { rest.take(j) })
    }
}

proof fn lemma_colon_index(s: Seq<char>)
    ensures
        -1 <= colon_index(s) < s.len(),
        colon_index(s) >= 0 ==> s[colon_index(s)] == ':',
        forall|k: int|
            0 <= k < s.len() && (colon_index(s) < 0 || k < colon_index(s)) ==> #[trigger] s[k]
                != ':',
    decreases s.len(),
{
    if s.len() > 0 {
        lemma_colon_index(s.drop_last());
        assert forall|k: int|
            0 <= k < s.len() && (colon_index(s) < 0 || k < colon_index(s)) implies #[trigger] s[k]
            != ':' by {
            if k < s.len() - 1 {
                assert(s.drop_last()[k] == s[k]);
            }
        }
    }
}

/// The first `:` at or after `from` in `cs`, or the length when there is none.
fn find_colon(cs: &Vec<char>, from: usize) -> (r: usize)
    requires
        from <= cs@.len(),
    ensures
        from <= r <= cs@.len(),
        r == from + if colon_index(cs@.skip(from as int)) < 0 {
            cs@.len() - from
        } else {
            colon_index(cs@.skip(from as int))
        },
{
    let mut i = from;
    while i < cs.len() && cs[i] != ':'
        invariant
            from <= i <= cs@.len(),
            forall|k: int| from <= k < i ==> cs@[k] != ':',
        decreases cs.len() - i,
    {
        i = i + 1;
    }
    proof {
        let t = cs@.skip(from as int);
        lemma_colon_index(t);
        let c = colon_index(t);
        assert(t.len() == cs@.len() - from);
        if i < cs.len() {
            assert(cs@[i as int] == ':');
            assert(t[i - from] == cs@[i as int]);
            if c < 0 || c > i - from {
                assert(t[i - from] != ':');
            } else if c < i - from {
                assert(t[c] == cs@[from + c]);
            }
            assert(c == i - from);
        } else {
            if c >= 0 {
                assert(t[c] == cs@[from + c]);
            }
            assert(c < 0);
        }
    }
    i
}

/// Splits an image reference into its name and tag: what precedes the first
/// `:`, and what follows it up to the next `:`; the tag is `latest` when the
/// reference has no `:`.
pub fn parse_image_ref(image: &str) -> (r: (String, String))
    ensures
        r.0@ == split_image_ref(image@).0,
        r.1@ == split_image_ref(image@).1,
{
    let cs = crate::text::chars_of(image);
    let n = cs.len();
    let i = find_colon(&cs, 0);
    proof {
        assert(cs@.skip(0) =~= cs@);
        lemma_colon_index(image@);
    }
    if i == n {
        return (image.to_owned(), "latest".to_owned());
    }
    let j = find_colon(&cs, i + 1);
    proof {
        assert(cs@.skip(i + 1) =~= image@.skip(i + 1));
        lemma_colon_index(image@.skip(i + 1));
    }
    let name = image.substring_char(0, i).to_owned();
    let tag = image.substring_char(i + 1, j).to_owned();
    proof {
        assert(tag@ =~= split_image_ref(image@).1);
    }
    (name, tag)
}

/// One record of an image's build history as the runtime reports it.
#[derive(Debug, PartialEq, Eq)]
pub struct HistoryEntry {
    pub id: String,
    pub created_by: String,
    pub size: i64,
    /// Seconds since the epoch; 0 or less when unknown.
    pub created: i64,
}

/// What the runtime reports of an image as a whole.
#[derive(Debug, PartialEq, Eq)]
pub struct ImageInfo {
    pub size: Option<i64>,
    pub os: Option<String>,
    pub architecture: Option<String>,
    pub repo_digests: Option<Vec<String>>,
}

/// The creation time of a history record, `now` when it is unknown or out of range.
pub open spec fn created_at(created: i64, now: Timestamp) -> Timestamp {
    if created > 0 && utc_representable(created) {
        Timestamp { secs: created, nanos: 0 }
    } else {
        now
    }
}

/// `l` is the layer that history record `e` describes.
pub open spec fn is_layer_of(l: LayerInfo, e: HistoryEntry, now: Timestamp) -> bool {
    &&& l.digest@ == if e.id@.len() == 0 {
        "<missing>"@
    } else {
        e.id@
    }
    &&& l.size == e.size as u64
    &&& l.command@ == cleaned_command(
        if e.created_by@.len() == 0 {
            "<unknown>"@
        } else {
            e.created_by@
        },
    )
    &&& l.created == created_at(e.created, now)
}

/// The layer that one history record describes.
pub fn layer_from_entry(e: &HistoryEntry, now: Timestamp) -> (r: LayerInfo)
    ensures
        is_layer_of(r, *e, now),
{
    let command = if e.created_by.as_str().unicode_len() == 0 {
        clean_command("<unknown>")
    } else {
        clean_command(e.created_by.as_str())
    };
    let created = if e.created > 0 {
        match utc_from_unix(e.created) {
            Some(t) => t,
            None => now,
        }
    } else {
        now
    };
    let digest = if e.id.as_str().unicode_len() == 0 {
        "<missing>".to_owned()
    } else {
        e.id.clone()
    };
    LayerInfo { digest, size: e.size as u64, command, created }
}

/// Builds the snapshot of `image` from what the runtime reports: the size,
/// OS (`linux` when unknown) and architecture (`amd64` when unknown), the
/// first repository digest, the name and tag of the reference, and one layer
/// per history record, oldest first (the runtime lists the newest first).
/// The git fields are left blank and the capture time is `now`.
pub fn snapshot_from_inspection(
    image: &str,
    info: ImageInfo,
    history: &Vec<HistoryEntry>,
    now: Timestamp,
) -> (r: ImageSnapshot)
    ensures
        r.image@ == split_image_ref(image@).0,
        r.tag matches Some(t) && t@ == split_image_ref(image@).1,
        r.total_size == (match info.size {
            Some(s) => s,
            None => 0,
        }) as u64,
        r.os@ == (match info.os {
            Some(o) => o@,
            None => "linux"@,
        }),
        r.arch@ == (match info.architecture {
            Some(a) => a@,
            None => "amd64"@,
        }),
        r.digest == (match info.repo_digests {
            Some(ds) => if ds@.len() > 0 {
                Some(ds@[0])
            } else {
                None::<String>
            },
            None => None::<String>,
        }),
        r.commit_sha@.len() == 0,
        r.branch@.len() == 0,
        r.commit_message@.len() == 0,
        r.author@.len() == 0,
        r.timestamp == now,
        r.layer_count == history@.len(),
        r.layers@.len() == history@.len(),
        forall|i: int|
            0 <= i < history@.len() ==> #[trigger] is_layer_of(
                r.layers@[i],
                history@[history@.len() - 1 - i],
                now,
            ),
{
    let (name, tag) = parse_image_ref(image);
    let total_size = match info.size {
        Some(s) => s as u64,
        None => 0,
    };
    let os = match info.os {
        Some(o) => o,
        None => "linux".to_owned(),
    };
    let arch = match info.architecture {
        Some(a) => a,
        None => "amd64".to_owned(),
    };
    let digest = match &info.repo_digests {
        Some(ds) => if ds.len() > 0 {
            Some(ds[0].clone())
        } else {
            None
        },
        None => None,
    };
    let mut layers: Vec<LayerInfo> = Vec::new();
    let n = history.len();
    let mut k: usize = 0;
    while k < n
        invariant
            n == history@.len(),
            k <= n,
            layers@.len() == k,
            forall|i: int|
                0 <= i < k ==> #[trigger] is_layer_of(layers@[i], history@[n - 1 - i], now),
        decreases n - k,
    {
        layers.push(layer_from_entry(&history[n - 1 - k], now));
        k = k + 1;
    }
    ImageSnapshot {
        image: name,
        tag: Some(tag),
        digest,
        commit_sha: String::new(),
        branch: String::new(),
        commit_message: String::new(),
        author: String::new(),
        timestamp: now,
        total_size,
        layer_count: n,
        layers,
        os,
        arch,
    }
}

} // verus!
