//! The Syft + Grype provider: what its documents hold, and how a report is
//! built from them.
//!
//! Running the scanners (Docker processes) and reading their JSON is done by
//! the caller; this module holds the documents as plain values and every
//! rule that turns them into a canonical provider report.

use crate::findings::finding_provider::ReportedFindingView;
use crate::findings::{
    ArtifactKind, EvidenceFreshness, FindingProviderError, FindingProviderErrorKind,
    PackageCoordinate, ProviderScanReport, ReportedFinding, ScanRequest, Severity,
};
use crate::collections::{views_sorted, OrderedSet};
use crate::findings::finding_provider_contract::{is_white_space, white_space};
use crate::order::{opt_text, owned, text_eq, texts};
use crate::integration::integration_events::unix_micros;
use vstd::prelude::*;

verus! {

/// Stable provider key for the Syft + Grype adapter path.
pub const SYFT_GRYPE_PROVIDER_KEY: &'static str = "syft-grype";

/// Official Syft image used by the live Docker-backed runner.
pub const OFFICIAL_SYFT_IMAGE: &'static str = "ghcr.io/anchore/syft:v1.44.0";

/// Official Grype image used by the live Docker-backed runner.
pub const OFFICIAL_GRYPE_IMAGE: &'static str = "ghcr.io/anchore/grype:v0.112.0";

/// Default timeout applied to each live provider process, in seconds.
pub const DEFAULT_LIVE_COMMAND_TIMEOUT_SECS: u64 = 60;

/// Maximum stderr payload kept in one provider failure message.
pub const MAX_ERROR_TEXT_BYTES: usize = 2048;

/// What ends a provider failure message whose stderr was cut.
pub const TRUNCATION_MARKER: &'static str = "…[truncated]";

/// The source section of a Syft document.
pub struct SyftSourceMetadata {
    pub repo_digests: Vec<String>,
    pub manifest_digest: Option<String>,
}

pub struct SyftSource {
    pub name: Option<String>,
    pub metadata: SyftSourceMetadata,
}

/// The part of a Syft JSON document that the provider reads.
pub struct SyftDocument {
    pub source: SyftSource,
}

pub struct GrypeSourceTarget {
    pub user_input: Option<String>,
    pub repo_digests: Vec<String>,
    pub manifest_digest: Option<String>,
}

pub struct GrypeSource {
    pub target: GrypeSourceTarget,
}

pub struct GrypeDbStatus {
    pub schema_version: Option<String>,
    pub built: Option<String>,
}

pub struct GrypeDescriptorDb {
    pub status: GrypeDbStatus,
}

pub struct GrypeDescriptor {
    pub timestamp: Option<String>,
    pub db: GrypeDescriptorDb,
}

pub struct GrypeFix {
    pub versions: Vec<String>,
}

pub struct GrypeRelatedVulnerability {
    pub id: String,
}

pub struct GrypeAdvisory {
    pub id: String,
}

pub struct GrypeVulnerability {
    pub id: String,
    pub severity: Option<String>,
    pub fix: GrypeFix,
    pub related_vulnerabilities: Vec<GrypeRelatedVulnerability>,
    pub advisories: Vec<GrypeAdvisory>,
}

pub struct GrypeArtifact {
    pub id: String,
    pub name: String,
    pub version: String,
    pub purl: Option<String>,
}

pub struct GrypeMatch {
    pub vulnerability: GrypeVulnerability,
    pub artifact: GrypeArtifact,
}

/// The part of a Grype JSON report that the provider reads.
pub struct GrypeReport {
    pub matches: Vec<GrypeMatch>,
    pub source: GrypeSource,
    pub descriptor: GrypeDescriptor,
}

/// The first element of a sequence, as a sequence of at most one element.
pub open spec fn first_only(v: Seq<Seq<char>>) -> Seq<Seq<char>> {
    if v.len() > 0 {
        seq![v[0]]
    } else {
        seq![]
    }
}

/// The immutable identities a Syft document names for its image: its first
/// repo digest, then `name@manifest-digest`.
pub open spec fn syft_candidates(d: SyftDocument) -> Seq<Seq<char>> {
    first_only(texts(d.source.metadata.repo_digests@)) + match (
        d.source.name,
        d.source.metadata.manifest_digest,
    ) {
        (Some(n), Some(m)) => seq![n@ + "@"@ + m@],
        _ => seq![],
    }
}

/// The text before the first `@`; all of it when there is none.
pub open spec fn before_at(s: Seq<char>) -> Seq<char>
    decreases s.len(),
{
    if s.len() == 0 {
        s
    } else if s[0] == '@' {
        seq![]
    } else {
        seq![s[0]] + before_at(s.drop_first())
    }
}

/// The image name a Grype target names: its user input before any `@`.
pub open spec fn image_name_of(t: GrypeSourceTarget) -> Seq<char> {
    before_at(
        match t.user_input {
            Some(u) => u@,
            None => "unknown-image"@,
        },
    )
}

/// The immutable identities a Grype report names for its image: its first
/// repo digest, then `image-name@manifest-digest`.
pub open spec fn grype_candidates(g: GrypeReport) -> Seq<Seq<char>> {
    first_only(texts(g.source.target.repo_digests@)) + match g.source.target.manifest_digest {
        Some(m) => seq![image_name_of(g.source.target) + "@"@ + m@],
        None => seq![],
    }
}

/// The knowledge revision a Grype report names: its database schema and
/// build time, when the build time is known.
pub open spec fn revision_of(d: GrypeDescriptor) -> Option<Seq<char>> {
    match d.db.status.built {
        Some(b) => Some(
            "grype-db:"@ + match d.db.status.schema_version {
                Some(s) => s@,
                None => "unknown"@,
            } + ":"@ + b@,
        ),
        None => None,
    }
}

/// The other identities of a vulnerability: those of its advisories and
/// related vulnerabilities, but its own.
pub open spec fn alias_ids(v: GrypeVulnerability) -> Set<Seq<char>> {
    Set::new(
        |x: Seq<char>|
            x != v.id@ && ((exists|i: int|
                0 <= i < v.advisories@.len() && #[trigger] v.advisories@[i].id@ == x) || (exists|
                j: int,
            |
                0 <= j < v.related_vulnerabilities@.len() && #[trigger] v.related_vulnerabilities@[j].id@
                    == x)),
    )
}

/// Upper-case ASCII letters folded to lower case, by code point.
pub open spec fn folded(c: char) -> u32 {
    let u = c as u32;
    if 65 <= u <= 90 {
        (u + 32) as u32
    } else {
        u
    }
}

/// Two texts equal but for the case of ASCII letters.
pub open spec fn same_ignoring_ascii_case(a: Seq<char>, b: Seq<char>) -> bool {
    a.len() == b.len() && forall|i: int| 0 <= i < a.len() ==> folded(a[i]) == folded(b[i])
}

/// The severity a provider label names, whatever the case of its letters.
pub open spec fn severity_named(label: Option<Seq<char>>) -> Severity {
    match label {
        Some(s) => if same_ignoring_ascii_case(s, "none"@) {
            Severity::NoImpact
        } else if same_ignoring_ascii_case(s, "low"@) {
            Severity::Low
        } else if same_ignoring_ascii_case(s, "medium"@) {
            Severity::Medium
        } else if same_ignoring_ascii_case(s, "high"@) {
            Severity::High
        } else if same_ignoring_ascii_case(s, "critical"@) {
            Severity::Critical
        } else {
            Severity::Unknown
        },
        None => Severity::Unknown,
    }
}

/// The canonical finding of one Grype match, given its aliases in order.
pub open spec fn finding_of(m: GrypeMatch, aliases: Seq<Seq<char>>) -> ReportedFindingView {
    ReportedFindingView {
        vulnerability_id: m.vulnerability.id@,
        provider_finding_key: Some(
            "grype:"@ + m.artifact.id@ + ":"@ + m.vulnerability.id@,
        ),
        package: (m.artifact.name@, m.artifact.version@, opt_text(m.artifact.purl)),
        fix_version: if m.vulnerability.fix.versions@.len() > 0 {
            Some(m.vulnerability.fix.versions@[0]@)
        } else {
            None
        },
        severity: severity_named(opt_text(m.vulnerability.severity)),
        aliases,
    }
}

/// Whether `aliases` lists the aliases of a vulnerability: each once, in
/// increasing order.
pub open spec fn lists_aliases(aliases: Seq<Seq<char>>, v: GrypeVulnerability) -> bool {
    views_sorted::<String>(aliases) && aliases.to_set() == alias_ids(v)
}

/// `t` is `s` without its leading and trailing white space.
pub open spec fn is_trim_of(t: Seq<char>, s: Seq<char>) -> bool {
    exists|i: int, j: int|
        0 <= i <= j <= s.len() && t == s.subrange(i, j) && (forall|k: int|
            0 <= k < i ==> #[trigger] is_white_space(s[k])) && (forall|k: int|
            j <= k < s.len() ==> #[trigger] is_white_space(s[k])) && (i < j ==> !is_white_space(s[i])
            && !is_white_space(s[j - 1]))
}

/// The failure of a provider answer that does not hold together.
pub open spec fn is_corrupt_response(e: FindingProviderError, message: Seq<char>) -> bool {
    e.kind == FindingProviderErrorKind::CorruptResponse && !e.retryable && e.message@ == message
}

/// The failure of a request that a provider cannot serve.
pub open spec fn is_invalid_request(e: FindingProviderError, message: Seq<char>) -> bool {
    e.kind == FindingProviderErrorKind::InvalidRequest && !e.retryable && e.message@ == message
}

/// The message of a Syft source that names another image than the one
/// requested.
pub open spec fn syft_mismatch(identity: Seq<char>) -> Seq<char> {
    "syft source did not match requested artifact identity `"@ + identity + "`"@
}

/// The message of a Grype source that names another image than the one
/// requested.
pub open spec fn grype_mismatch(identity: Seq<char>) -> Seq<char> {
    "grype source did not match requested artifact identity `"@ + identity + "`"@
}

/// The findings of a report stand, in order, for the matches of a Grype
/// report.
pub open spec fn findings_of_matches(findings: Seq<ReportedFinding>, matches: Seq<GrypeMatch>) -> bool {
    &&& findings.len() == matches.len()
    &&& forall|i: int|
        0 <= i < matches.len() ==> lists_aliases(#[trigger] findings[i]@.aliases, matches[i].vulnerability)
            && findings[i]@ == finding_of(matches[i], findings[i]@.aliases)
}

/// The text that decoding bytes as UTF-8, with each invalid sequence replaced
/// by U+FFFD, gives (what `String::from_utf8_lossy` returns).
pub uninterp spec fn utf8_lossy(bytes: Seq<u8>) -> Seq<char>;

/// What parsing a text as an RFC 3339 timestamp gives: the nanoseconds from
/// the Unix epoch to the instant (negative before it), or the parser's error
/// message (through `time::OffsetDateTime::parse` and `unix_timestamp_nanos`).
pub uninterp spec fn rfc3339_nanos(text: Seq<char>) -> Result<i128, Seq<char>>;

/// The microseconds from the Unix epoch that a time `nanos` nanoseconds
/// after it shows; none for a time before the epoch.
pub open spec fn instant_micros(nanos: i128) -> Option<u128> {
    if nanos >= 0 {
        Some((nanos / 1000) as u128)
    } else {
        None
    }
}

/// Decode bytes as UTF-8 through `String::from_utf8_lossy`. Its result is
/// named; of bytes that are all ASCII, std documents that they decode to the
/// same characters.
#[verifier::external_body]
fn decode_lossy(bytes: &[u8]) -> (r: String)
    ensures
        r@ == utf8_lossy(bytes@),
        (forall|i: int| 0 <= i < bytes@.len() ==> #[trigger] bytes@[i] < 128) ==> r@ == bytes@.map_values(
            |b: u8| b as char,
        ),
{
    String::from_utf8_lossy(bytes).into_owned()
}

/// Parse an RFC 3339 timestamp through `time::OffsetDateTime::parse`, and
/// give its instant as nanoseconds from the Unix epoch through
/// `unix_timestamp_nanos`; an error carries the parser's message. The result
/// is named.
#[verifier::external_body]
fn parse_rfc3339_nanos(text: &str) -> (r: Result<i128, String>)
    ensures
        match (r, rfc3339_nanos(text@)) {
            (Ok(n), Ok(m)) => n == m,
            (Err(m), Err(n)) => m@ == n,
            _ => false,
        },
{
    match time::OffsetDateTime::parse(text, &time::format_description::well_known::Rfc3339) {
        Ok(t) => Ok(t.unix_timestamp_nanos()),
        Err(e) => Err(e.to_string()),
    }
}

/// The time `secs` seconds and `nanos` nanoseconds after the Unix epoch,
/// through `Duration::new` and `SystemTime::checked_add`; none when the
/// platform's `SystemTime` cannot represent it. The time since the epoch of
/// such a time is that duration, so it shows its whole microseconds.
#[verifier::external_body]
fn epoch_plus(secs: u64, nanos: u32) -> (r: Option<std::time::SystemTime>)
    requires
        nanos < 1_000_000_000,
    ensures
        r matches Some(t) ==> unix_micros(t) == Some((secs * 1_000_000 + nanos / 1000) as u128),
{
    std::time::UNIX_EPOCH.checked_add(std::time::Duration::new(secs, nanos))
}

/// The time `secs` seconds and `nanos` nanoseconds before the Unix epoch,
/// through `Duration::new` and `SystemTime::checked_sub`; none when the
/// platform's `SystemTime` cannot represent it. Such a time, when it is
/// not the epoch itself, lies before the epoch.
#[verifier::external_body]
fn epoch_minus(secs: u64, nanos: u32) -> (r: Option<std::time::SystemTime>)
    requires
        nanos < 1_000_000_000,
        secs > 0 || nanos > 0,
    ensures
        r matches Some(t) ==> unix_micros(t) is None,
{
    std::time::UNIX_EPOCH.checked_sub(std::time::Duration::new(secs, nanos))
}

/// The time `n` nanoseconds from the Unix epoch (before it when negative);
/// none when it cannot be represented.
pub fn time_of_unix_nanos(n: i128) -> (r: Option<std::time::SystemTime>)
    ensures
        r matches Some(t) ==> unix_micros(t) == instant_micros(n),
{
    if n >= 0 {
        let m: u128 = n as u128;
        let secs: u128 = m / 1_000_000_000;
        let sub: u128 = m % 1_000_000_000;
        if secs > u64::MAX as u128 {
            return None;
        }
        assert(m / 1000 == secs * 1_000_000 + sub / 1000) by (nonlinear_arith)
            requires
                secs == m / 1_000_000_000,
                sub == m % 1_000_000_000,
        ;
        epoch_plus(secs as u64, sub as u32)
    } else {
        if n == i128::MIN {
            return None;
        }
        let m: u128 = (-n) as u128;
        let secs: u128 = m / 1_000_000_000;
        let sub: u128 = m % 1_000_000_000;
        if secs > u64::MAX as u128 {
            return None;
        }
        assert(secs > 0 || sub > 0) by (nonlinear_arith)
            requires
                secs == m / 1_000_000_000,
                sub == m % 1_000_000_000,
                m > 0,
        ;
        epoch_minus(secs as u64, sub as u32)
    }
}

/// The Unix epoch, through `std::time::UNIX_EPOCH`: no time passes from the
/// epoch to itself.
#[verifier::external_body]
fn unix_epoch() -> (r: std::time::SystemTime)
    ensures
        unix_micros(r) == Some(0u128),
{
    std::time::UNIX_EPOCH
}

/// The first text of a list, as a list of at most one text.
fn first_text(v: &Vec<String>) -> (r: Vec<String>)
    ensures
        texts(r@) == first_only(texts(v@)),
{
    let mut out: Vec<String> = Vec::new();
    if v.len() > 0 {
        out.push(v[0].clone());
    }
    assert(texts(out@) =~= first_only(texts(v@)));
    out
}

impl SyftDocument {
    /// The immutable identities this document names for its image.
    pub fn identity_candidates(&self) -> (r: Vec<String>)
        ensures
            texts(r@) == syft_candidates(*self),
    {
        let mut values = first_text(&self.source.metadata.repo_digests);
        let ghost base = values@;
        match (&self.source.name, &self.source.metadata.manifest_digest) {
            (Some(name), Some(digest)) => {
                values.push(owned(name.as_str()).concat("@").concat(digest.as_str()));
                assert(texts(values@) =~= texts(base) + seq![name@ + "@"@ + digest@]);
            },
            _ => {
                assert(texts(values@) =~= texts(base) + Seq::<Seq<char>>::empty());
            },
        }
        values
    }
}

/// The text before the first `@` of `s`; all of it when there is none.
fn text_before_at(s: &str) -> (r: String)
    ensures
        r@ == before_at(s@),
{
    let n = s.unicode_len();
    let mut i: usize = 0;
    while i < n
        invariant_except_break
            n == s@.len(),
            i <= n,
            forall|k: int| 0 <= k < i ==> #[trigger] s@[k] != '@',
        ensures
            n == s@.len(),
            i <= n,
            forall|k: int| 0 <= k < i ==> #[trigger] s@[k] != '@',
            i < n ==> s@[i as int] == '@',
        decreases n - i,
    {
        if s.get_char(i) == '@' {
            break;
        }
        i = i + 1;
    }
    proof {
        lemma_before_at(s@, i as int);
    }
    owned(s.substring_char(0, i))
}

/// The text before the first `@` is the text before the first index that
/// holds one.
pub proof fn lemma_before_at(s: Seq<char>, i: int)
    requires
        0 <= i <= s.len(),
        forall|k: int| 0 <= k < i ==> #[trigger] s[k] != '@',
        i < s.len() ==> s[i] == '@',
    ensures
        before_at(s) == s.subrange(0, i),
    decreases i,
{
    if s.len() == 0 {
        assert(s.subrange(0, i) =~= s);
    } else if i == 0 {
        assert(s.subrange(0, 0) =~= Seq::<char>::empty());
    } else {
        let t = s.drop_first();
        assert forall|k: int| 0 <= k < i - 1 implies #[trigger] t[k] != '@' by {
            assert(t[k] == s[k + 1]);
        }
        lemma_before_at(t, i - 1);
        assert(seq![s[0]] + t.subrange(0, i - 1) =~= s.subrange(0, i));
    }
}

impl GrypeSourceTarget {
    /// The image name this target names: its user input before any `@`.
    pub fn image_name(&self) -> (r: String)
        ensures
            r@ == image_name_of(*self),
    {
        match &self.user_input {
            Some(u) => text_before_at(u.as_str()),
            None => text_before_at("unknown-image"),
        }
    }
}

impl GrypeReport {
    /// The immutable identities this report names for its image.
    pub fn identity_candidates(&self) -> (r: Vec<String>)
        ensures
            texts(r@) == grype_candidates(*self),
    {
        let mut values = first_text(&self.source.target.repo_digests);
        let ghost base = values@;
        match &self.source.target.manifest_digest {
            Some(digest) => {
                let name = self.source.target.image_name();
                values.push(name.concat("@").concat(digest.as_str()));
                assert(texts(values@) =~= texts(base) + seq![
                    image_name_of(self.source.target) + "@"@ + digest@,
                ]);
            },
            None => {
                assert(texts(values@) =~= texts(base) + Seq::<Seq<char>>::empty());
            },
        }
        values
    }
}

impl GrypeDescriptor {
    /// The knowledge revision this report names, when its database build
    /// time is known.
    pub fn knowledge_revision(&self) -> (r: Option<String>)
        ensures
            opt_text(r) == revision_of(*self),
    {
        match &self.db.status.built {
            Some(built) => {
                let schema = match &self.db.status.schema_version {
                    Some(s) => s.as_str(),
                    None => "unknown",
                };
                Some(owned("grype-db:").concat(schema).concat(":").concat(built.as_str()))
            },
            None => None,
        }
    }
}

impl GrypeFix {
    /// The first version that fixes the vulnerability.
    pub fn first_version(&self) -> (r: Option<&str>)
        ensures
            r is Some <==> self.versions@.len() > 0,
            r matches Some(v) ==> v@ == self.versions@[0]@,
    {
        if self.versions.len() > 0 {
            Some(self.versions[0].as_str())
        } else {
            None
        }
    }
}

impl GrypeVulnerability {
    /// The other identities of this vulnerability, each once, in increasing
    /// order.
    pub fn aliases(&self) -> (r: Vec<String>)
        ensures
            lists_aliases(texts(r@), *self),
    {
        let mut set: OrderedSet<String> = OrderedSet::new();
        let mut i: usize = 0;
        while i < self.advisories.len()
            invariant
                set.wf(),
                i <= self.advisories@.len(),
                forall|x: Seq<char>| #[trigger] set@.to_set().contains(x) <==> x != self.id@ && exists|
                    k: int,
                | 0 <= k < i && #[trigger] self.advisories@[k].id@ == x,
            decreases self.advisories.len() - i,
        {
            let id = &self.advisories[i].id;
            if !text_eq(id.as_str(), self.id.as_str()) {
                let _ = set.insert(id.clone());
            }
            proof {
                assert forall|x: Seq<char>| #[trigger] set@.to_set().contains(x) <==> x != self.id@
                    && exists|k: int| 0 <= k < i + 1 && #[trigger] self.advisories@[k].id@ == x by {
                    if x != self.id@ && exists|k: int| 0 <= k < i + 1 && #[trigger] self.advisories@[k].id@ == x {
                        let k = choose|k: int| 0 <= k < i + 1 && #[trigger] self.advisories@[k].id@ == x;
                        if k < i {
                        }
                    }
                }
            }
            i = i + 1;
        }
        let mut j: usize = 0;
        while j < self.related_vulnerabilities.len()
            invariant
                set.wf(),
                j <= self.related_vulnerabilities@.len(),
                forall|x: Seq<char>| #[trigger] set@.to_set().contains(x) <==> x != self.id@ && ((exists|
                    k: int,
                | 0 <= k < self.advisories@.len() && #[trigger] self.advisories@[k].id@ == x) || (exists|
                    k: int,
                | 0 <= k < j && #[trigger] self.related_vulnerabilities@[k].id@ == x)),
            decreases self.related_vulnerabilities.len() - j,
        {
            let id = &self.related_vulnerabilities[j].id;
            if !text_eq(id.as_str(), self.id.as_str()) {
                let _ = set.insert(id.clone());
            }
            proof {
                assert forall|x: Seq<char>| #[trigger] set@.to_set().contains(x) <==> x != self.id@ && ((
                exists|k: int| 0 <= k < self.advisories@.len() && #[trigger] self.advisories@[k].id@ == x)
                    || (exists|k: int|
                    0 <= k < j + 1 && #[trigger] self.related_vulnerabilities@[k].id@ == x)) by {
                    if x != self.id@ && exists|k: int|
                        0 <= k < j + 1 && #[trigger] self.related_vulnerabilities@[k].id@ == x {
                        let k = choose|k: int|
                            0 <= k < j + 1 && #[trigger] self.related_vulnerabilities@[k].id@ == x;
                        if k < j {
                        }
                    }
                }
            }
            j = j + 1;
        }
        let mut out: Vec<String> = Vec::new();
        let mut p: usize = 0;
        while p < set.len()
            invariant
                set.wf(),
                p <= set@.len(),
                texts(out@) == set@.take(p as int),
            decreases set@.len() - p,
        {
            let x = set.get(p);
            let y = x.clone();
            let ghost before = out@;
            out.push(y);
            assert(set@.take(p + 1) =~= set@.take(p as int).push(set@[p as int]));
            assert(texts(out@) =~= texts(before).push(y@));
            assert(texts(out@) =~= set@.take(p + 1));
            p = p + 1;
        }
        assert(set@.take(set@.len() as int) =~= set@);
        assert(set@.to_set() =~= alias_ids(*self));
        out
    }
}

/// Whether two texts are equal but for the case of ASCII letters.
fn eq_ignore_ascii_case(a: &str, b: &str) -> (r: bool)
    ensures
        r == same_ignoring_ascii_case(a@, b@),
{
    let n = a.unicode_len();
    let m = b.unicode_len();
    if n != m {
        return false;
    }
    let mut i: usize = 0;
    while i < n
        invariant
            n == a@.len(),
            n == b@.len(),
            i <= n,
            forall|k: int| 0 <= k < i ==> folded(a@[k]) == folded(b@[k]),
        decreases n - i,
    {
        let x = a.get_char(i) as u32;
        let y = b.get_char(i) as u32;
        let fx = if 65 <= x && x <= 90 {
            x + 32
        } else {
            x
        };
        let fy = if 65 <= y && y <= 90 {
            y + 32
        } else {
            y
        };
        if fx != fy {
            return false;
        }
        i = i + 1;
    }
    true
}

/// The severity that a provider label names, whatever the case of its
/// letters; an unknown or missing label is `Unknown`.
pub fn normalize_severity(value: Option<&str>) -> (r: Severity)
    ensures
        r == severity_named(
            match value {
                Some(v) => Some(v@),
                None => None,
            },
        ),
{
    proof {
        reveal_strlit("none");
        reveal_strlit("low");
        reveal_strlit("medium");
        reveal_strlit("high");
        reveal_strlit("critical");
    }
    match value {
        Some(v) => {
            if eq_ignore_ascii_case(v, "none") {
                Severity::NoImpact
            } else if eq_ignore_ascii_case(v, "low") {
                Severity::Low
            } else if eq_ignore_ascii_case(v, "medium") {
                Severity::Medium
            } else if eq_ignore_ascii_case(v, "high") {
                Severity::High
            } else if eq_ignore_ascii_case(v, "critical") {
                Severity::Critical
            } else {
                Severity::Unknown
            }
        },
        None => Severity::Unknown,
    }
}

/// The package coordinate of one Grype artifact.
pub fn to_package_coordinate(artifact: &GrypeArtifact) -> (r: PackageCoordinate)
    ensures
        r@ == (artifact.name@, artifact.version@, opt_text(artifact.purl)),
{
    let coordinate = PackageCoordinate::new(artifact.name.as_str(), artifact.version.as_str());
    match &artifact.purl {
        Some(purl) => coordinate.with_purl(purl.as_str()),
        None => coordinate,
    }
}

/// The canonical finding of one Grype match.
pub fn to_reported_finding(entry: &GrypeMatch) -> (r: ReportedFinding)
    ensures
        lists_aliases(r@.aliases, entry.vulnerability),
        r@ == finding_of(*entry, r@.aliases),
{
    let severity = match &entry.vulnerability.severity {
        Some(label) => normalize_severity(Some(label.as_str())),
        None => normalize_severity(None),
    };
    let key = owned("grype:").concat(entry.artifact.id.as_str()).concat(":").concat(
        entry.vulnerability.id.as_str(),
    );
    let mut finding = ReportedFinding::new(
        entry.vulnerability.id.as_str(),
        to_package_coordinate(&entry.artifact),
    ).with_severity(severity).with_provider_finding_key(key.as_str());
    match entry.vulnerability.fix.first_version() {
        Some(version) => {
            finding = finding.with_fix_version(version);
        },
        None => {},
    }
    let aliases = entry.vulnerability.aliases();
    let ghost base = finding;
    let mut k: usize = 0;
    assert(texts(aliases@).take(0) =~= Seq::<Seq<char>>::empty());
    while k < aliases.len()
        invariant
            k <= aliases@.len(),
            texts(finding.aliases@) == texts(aliases@).take(k as int),
            finding.vulnerability_id == base.vulnerability_id,
            finding.provider_finding_key == base.provider_finding_key,
            finding.package == base.package,
            finding.fix_version == base.fix_version,
            finding.severity == base.severity,
        decreases aliases.len() - k,
    {
        finding = finding.with_alias(aliases[k].as_str());
        assert(texts(aliases@).take(k + 1) =~= texts(aliases@).take(k as int).push(aliases@[k as int]@));
        k = k + 1;
    }
    assert(texts(aliases@).take(aliases@.len() as int) =~= texts(aliases@));
    finding
}

/// Whether a text is one of a list of texts.
fn names(candidates: &Vec<String>, identity: &str) -> (r: bool)
    ensures
        r == texts(candidates@).contains(identity@),
{
    let mut i: usize = 0;
    while i < candidates.len()
        invariant
            i <= candidates@.len(),
            forall|k: int| 0 <= k < i ==> candidates@[k]@ != identity@,
        decreases candidates.len() - i,
    {
        if text_eq(candidates[i].as_str(), identity) {
            assert(texts(candidates@)[i as int] == identity@);
            return true;
        }
        i = i + 1;
    }
    assert forall|k: int| 0 <= k < texts(candidates@).len() implies texts(candidates@)[k] != identity@ by {
        assert(texts(candidates@)[k] == candidates@[k]@);
    }
    false
}

/// Both documents must name the requested image among their identities.
pub fn ensure_request_matches_sources(
    request: &ScanRequest,
    syft: &SyftDocument,
    grype: &GrypeReport,
) -> (r: Result<(), FindingProviderError>)
    ensures
        !syft_candidates(*syft).contains(request.artifact.identity@) ==> (r matches Err(e)
            && is_corrupt_response(e, syft_mismatch(request.artifact.identity@))),
        syft_candidates(*syft).contains(request.artifact.identity@) && !grype_candidates(
            *grype,
        ).contains(request.artifact.identity@) ==> (r matches Err(e) && is_corrupt_response(
            e,
            grype_mismatch(request.artifact.identity@),
        )),
        syft_candidates(*syft).contains(request.artifact.identity@) && grype_candidates(
            *grype,
        ).contains(request.artifact.identity@) ==> r is Ok,
{
    let identity = request.artifact.identity.as_str();
    if !names(&syft.identity_candidates(), identity) {
        let message = owned("syft source did not match requested artifact identity `").concat(
            identity,
        ).concat("`");
        return Err(
            FindingProviderError::new(
                FindingProviderErrorKind::CorruptResponse,
                false,
                message.as_str(),
            ),
        );
    }
    if !names(&grype.identity_candidates(), identity) {
        let message = owned("grype source did not match requested artifact identity `").concat(
            identity,
        ).concat("`");
        return Err(
            FindingProviderError::new(
                FindingProviderErrorKind::CorruptResponse,
                false,
                message.as_str(),
            ),
        );
    }
    Ok(())
}

/// The canonical immutable identity of the image a Syft document describes:
/// the first it names.
pub fn canonical_image_identity(syft: &SyftDocument) -> (r: Result<String, FindingProviderError>)
    ensures
        syft_candidates(*syft).len() > 0 ==> (r matches Ok(id) && id@ == syft_candidates(*syft)[0]),
        syft_candidates(*syft).len() == 0 ==> (r matches Err(e) && is_corrupt_response(
            e,
            "syft source did not expose a canonical immutable image identity"@,
        )),
{
    let candidates = syft.identity_candidates();
    if candidates.len() > 0 {
        assert(texts(candidates@)[0] == candidates@[0]@);
        Ok(candidates[0].clone())
    } else {
        Err(
            FindingProviderError::new(
                FindingProviderErrorKind::CorruptResponse,
                false,
                "syft source did not expose a canonical immutable image identity",
            ),
        )
    }
}

/// Build the canonical provider report of one scan request from the Syft
/// document and the Grype report of its image.
pub fn build_report_from_documents(
    request: &ScanRequest,
    syft: &SyftDocument,
    grype: &GrypeReport,
) -> (r: Result<ProviderScanReport, FindingProviderError>)
    ensures
        !syft_candidates(*syft).contains(request.artifact.identity@) ==> (r matches Err(e)
            && is_corrupt_response(e, syft_mismatch(request.artifact.identity@))),
        syft_candidates(*syft).contains(request.artifact.identity@) && !grype_candidates(
            *grype,
        ).contains(request.artifact.identity@) ==> (r matches Err(e) && is_corrupt_response(
            e,
            grype_mismatch(request.artifact.identity@),
        )),
        syft_candidates(*syft).contains(request.artifact.identity@) && grype_candidates(
            *grype,
        ).contains(request.artifact.identity@) ==> match grype.descriptor.timestamp {
            Some(t) if rfc3339_nanos(t@) is Err => r matches Err(e) && is_corrupt_response(
                e,
                "failed to parse RFC3339 timestamp `"@ + t@ + "`: "@ + rfc3339_nanos(t@)->Err_0,
            ),
            Some(t) if r is Err => r matches Err(e) && is_corrupt_response(
                e,
                "RFC3339 timestamp `"@ + t@ + "` cannot be represented"@,
            ),
            _ => r matches Ok(report) && {
                &&& report.provider_key@ == SYFT_GRYPE_PROVIDER_KEY@
                &&& report.component_key@ == request.component_key@
                &&& report.artifact == request.artifact
                &&& report.freshness == request.freshness
                &&& (grype.descriptor.timestamp matches Some(t) ==> (rfc3339_nanos(t@) matches Ok(n)
                    && unix_micros(report.observed_at) == instant_micros(n)))
                &&& (grype.descriptor.timestamp is None ==> unix_micros(report.observed_at) == Some(
                    0u128,
                ))
                &&& opt_text(report.knowledge_revision) == revision_of(grype.descriptor)
                &&& findings_of_matches(report.findings@, grype.matches@)
            },
        },
{
    match ensure_request_matches_sources(request, syft, grype) {
        Ok(()) => {},
        Err(e) => {
            return Err(e);
        },
    }
    let observed_at = match &grype.descriptor.timestamp {
        Some(t) => match parse_rfc3339_nanos(t.as_str()) {
            Ok(n) => match time_of_unix_nanos(n) {
                Some(instant) => instant,
                None => {
                    let message = owned("RFC3339 timestamp `").concat(t.as_str()).concat(
                        "` cannot be represented",
                    );
                    return Err(
                        FindingProviderError::new(
                            FindingProviderErrorKind::CorruptResponse,
                            false,
                            message.as_str(),
                        ),
                    );
                },
            },
            Err(m) => {
                let message = owned("failed to parse RFC3339 timestamp `").concat(t.as_str()).concat(
                    "`: ",
                ).concat(m.as_str());
                return Err(
                    FindingProviderError::new(
                        FindingProviderErrorKind::CorruptResponse,
                        false,
                        message.as_str(),
                    ),
                );
            },
        },
        None => unix_epoch(),
    };
    let mut findings: Vec<ReportedFinding> = Vec::new();
    let mut i: usize = 0;
    while i < grype.matches.len()
        invariant
            i <= grype.matches@.len(),
            findings@.len() == i,
            forall|k: int|
                0 <= k < i ==> lists_aliases(#[trigger] findings@[k]@.aliases, grype.matches@[k].vulnerability)
                    && findings@[k]@ == finding_of(grype.matches@[k], findings@[k]@.aliases),
        decreases grype.matches.len() - i,
    {
        findings.push(to_reported_finding(&grype.matches[i]));
        i = i + 1;
    }
    let report = ProviderScanReport::new(
        SYFT_GRYPE_PROVIDER_KEY,
        request.component_key.as_str(),
        request.artifact.clone(),
        observed_at,
        request.freshness,
        findings,
    );
    match grype.descriptor.knowledge_revision() {
        Some(revision) => Ok(report.with_knowledge_revision(revision.as_str())),
        None => Ok(report),
    }
}

/// A docker-backed run serves live requests for container images only.
pub fn ensure_live_container_request(request: &ScanRequest) -> (r: Result<(), FindingProviderError>)
    ensures
        request.freshness != EvidenceFreshness::Live ==> (r matches Err(e) && is_invalid_request(
            e,
            "docker-backed syft-grype provider only supports live freshness"@,
        )),
        request.freshness == EvidenceFreshness::Live && request.artifact.kind
            != ArtifactKind::ContainerImage ==> (r matches Err(e) && is_invalid_request(
            e,
            "docker-backed syft-grype provider currently supports only container images"@,
        )),
        request.freshness == EvidenceFreshness::Live && request.artifact.kind
            == ArtifactKind::ContainerImage ==> r is Ok,
{
    if !matches!(request.freshness, EvidenceFreshness::Live) {
        return Err(
            FindingProviderError::new(
                FindingProviderErrorKind::InvalidRequest,
                false,
                "docker-backed syft-grype provider only supports live freshness",
            ),
        );
    }
    if !matches!(request.artifact.kind, ArtifactKind::ContainerImage) {
        return Err(
            FindingProviderError::new(
                FindingProviderErrorKind::InvalidRequest,
                false,
                "docker-backed syft-grype provider currently supports only container images",
            ),
        );
    }
    Ok(())
}

/// The arguments of the `docker` run that produces the Syft document of the
/// requested image.
pub fn docker_syft_args(image: &str, request: &ScanRequest) -> (r: Vec<String>)
    ensures
        texts(r@) == seq!["run"@, "--rm"@, image@, request.artifact.identity@, "-o"@, "syft-json"@],
{
    let mut args: Vec<String> = Vec::new();
    args.push(owned("run"));
    args.push(owned("--rm"));
    args.push(owned(image));
    args.push(request.artifact.identity.clone());
    args.push(owned("-o"));
    args.push(owned("syft-json"));
    assert(texts(args@) =~= seq!["run"@, "--rm"@, image@, request.artifact.identity@, "-o"@, "syft-json"@]);
    args
}

/// The arguments of the `docker` run that matches a Syft document, read
/// from its standard input, against the Grype database.
pub fn docker_grype_args(image: &str) -> (r: Vec<String>)
    ensures
        texts(r@) == seq!["run"@, "--rm"@, "-i"@, image@, "-o"@, "json"@],
{
    let mut args: Vec<String> = Vec::new();
    args.push(owned("run"));
    args.push(owned("--rm"));
    args.push(owned("-i"));
    args.push(owned(image));
    args.push(owned("-o"));
    args.push(owned("json"));
    assert(texts(args@) =~= seq!["run"@, "--rm"@, "-i"@, image@, "-o"@, "json"@]);
    args
}

/// `s` without its leading and trailing white space.
fn trim(s: &str) -> (r: String)
    ensures
        is_trim_of(r@, s@),
{
    let n = s.unicode_len();
    let mut i: usize = 0;
    while i < n
        invariant_except_break
            n == s@.len(),
            i <= n,
            forall|k: int| 0 <= k < i ==> #[trigger] is_white_space(s@[k]),
        ensures
            n == s@.len(),
            i <= n,
            forall|k: int| 0 <= k < i ==> #[trigger] is_white_space(s@[k]),
            i < n ==> !is_white_space(s@[i as int]),
        decreases n - i,
    {
        if !white_space(s.get_char(i)) {
            break;
        }
        i = i + 1;
    }
    let mut j: usize = n;
    while j > i
        invariant_except_break
            n == s@.len(),
            i <= j <= n,
            forall|k: int| j <= k < n ==> #[trigger] is_white_space(s@[k]),
        ensures
            n == s@.len(),
            i <= j <= n,
            forall|k: int| j <= k < n ==> #[trigger] is_white_space(s@[k]),
            i < j ==> !is_white_space(s@[j - 1]),
        decreases j,
    {
        if !white_space(s.get_char(j - 1)) {
            break;
        }
        j = j - 1;
    }
    let r = owned(s.substring_char(i, j));
    assert(r@ == s@.subrange(i as int, j as int));
    r
}

/// The text of a failed provider process's stderr, kept within
/// [`MAX_ERROR_TEXT_BYTES`] bytes before decoding: decoded, trimmed, and
/// marked when it was cut.
pub fn bounded_error_text(bytes: &[u8]) -> (r: String)
    ensures
        ({
            let limit = if bytes@.len() < MAX_ERROR_TEXT_BYTES {
                bytes@.len() as int
            } else {
                MAX_ERROR_TEXT_BYTES as int
            };
            let marker = if bytes@.len() > MAX_ERROR_TEXT_BYTES {
                TRUNCATION_MARKER@
            } else {
                Seq::<char>::empty()
            };
            &&& r@.len() >= marker.len()
            &&& r@.subrange(r@.len() - marker.len(), r@.len() as int) == marker
            &&& is_trim_of(
                r@.subrange(0, r@.len() - marker.len()),
                utf8_lossy(bytes@.take(limit)),
            )
            &&& (forall|i: int| 0 <= i < limit ==> #[trigger] bytes@[i] < 128) ==> is_trim_of(
                r@.subrange(0, r@.len() - marker.len()),
                bytes@.take(limit).map_values(|b: u8| b as char),
            )
        }),
{
    let limit = if bytes.len() < MAX_ERROR_TEXT_BYTES {
        bytes.len()
    } else {
        MAX_ERROR_TEXT_BYTES
    };
    let cut = vstd::slice::slice_subrange(bytes, 0, limit);
    assert(cut@ =~= bytes@.take(limit as int));
    let decoded = decode_lossy(cut);
    assert((forall|i: int| 0 <= i < limit ==> #[trigger] bytes@[i] < 128) ==> forall|i: int|
        0 <= i < cut@.len() ==> #[trigger] cut@[i] < 128);
    let text = trim(decoded.as_str());
    let ghost t = text@;
    if bytes.len() > MAX_ERROR_TEXT_BYTES {
        let r = text.concat(TRUNCATION_MARKER);
        assert(r@.subrange(0, r@.len() - TRUNCATION_MARKER@.len()) =~= t);
        assert(r@.subrange(r@.len() - TRUNCATION_MARKER@.len(), r@.len() as int) =~= TRUNCATION_MARKER@);
        r
    } else {
        assert(text@.subrange(0, text@.len() as int) =~= t);
        assert(text@.subrange(text@.len() as int, text@.len() as int) =~= Seq::<char>::empty());
        text
    }
}

} // verus!
