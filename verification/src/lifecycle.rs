//! The local-server lifecycle manager: the verified decisions of the
//! `Uninstalled -> Installed -> Running <-> Stopped` state machine.
//!
//! The manager owns the directory layout and every decision — which jar to
//! run, which URL to fetch, which arguments to spawn with, when a child
//! must be killed — while the caller performs the observations and actions
//! it is told to: listing directories, fetching over HTTP, spawning,
//! polling and killing the process.

use crate::text::ascii_chars;
use crate::text::ascii_string;
use crate::text::dec_bytes;
use crate::text::lemma_dec_bytes_ascii;
use crate::text::name_ends_with;
use crate::text::name_starts_with;
use crate::text::push_dec_u64;
use crate::text::str_ends_with;
use crate::text::str_starts_with;
use vstd::prelude::*;
use vstd::string::StrSliceExecFns;
use vstd::string::StringExecFns;

verus! {

/// A named directory entry together with the file names inside it, in the
/// order the caller enumerated them.
#[derive(Debug, Clone)]
pub struct DirEntry {
    /// The entry's own name.
    pub name: String,
    /// The names of the files inside the entry.
    pub files: Vec<String>,
}

/// The first file of a listing whose name ends in `.jar`, if any.
pub open spec fn spec_first_jar(files: Seq<String>) -> Option<Seq<char>>
    decreases files.len(),
{
    if files.len() == 0 {
        None
    } else if name_ends_with(files[0]@, ".jar"@) {
        Some(files[0]@)
    } else {
        spec_first_jar(files.drop_first())
    }
}

/// The jar path the install scan yields for a directory listing: inside
/// the first entry whose name starts with `brouter-` and holds a `.jar`
/// file, the first such file, as `<base>/<entry>/<file>`.
pub open spec fn spec_find_jar(base: Seq<char>, entries: Seq<DirEntry>) -> Option<Seq<char>>
    decreases entries.len(),
{
    if entries.len() == 0 {
        None
    } else {
        let e = entries[0];
        if name_starts_with(e.name@, "brouter-"@) {
            match spec_first_jar(e.files@) {
                Some(f) => Some(base + "/"@ + e.name@ + "/"@ + f),
                None => spec_find_jar(base, entries.drop_first()),
            }
        } else {
            spec_find_jar(base, entries.drop_first())
        }
    }
}

/// The segments subdirectory of an install directory.
pub open spec fn spec_segments_dir(base: Seq<char>) -> Seq<char> {
    base + "/segments4"@
}

/// The tile name of one segment: hemisphere letter and degrees for the
/// longitude, an underscore, then the same for the latitude.
pub open spec fn spec_segment_name(ew: u8, e: nat, ns: u8, n: nat) -> Seq<char> {
    ascii_chars(seq![ew] + dec_bytes(e) + seq![0x5Fu8] + seq![ns] + dec_bytes(n))
}

/// The latitude sweep of one longitude band: `k` tiles at 5-degree steps
/// from 0 on.
pub open spec fn spec_lat_sweep(ew: u8, e: nat, ns: u8, k: nat) -> Seq<Seq<char>>
    decreases k,
{
    if k == 0 {
        Seq::empty()
    } else {
        spec_lat_sweep(ew, e, ns, (k - 1) as nat).push(
            spec_segment_name(ew, e, ns, ((k - 1) * 5) as nat),
        )
    }
}

/// One longitude band: the full northern sweep, then the full southern
/// sweep, 19 tiles each (0 through 90 degrees).
pub open spec fn spec_lon_band(ew: u8, e: nat) -> Seq<Seq<char>> {
    spec_lat_sweep(ew, e, 0x4E, 19) + spec_lat_sweep(ew, e, 0x53, 19)
}

/// The bands of one hemisphere letter: `k` bands at 5-degree steps from 0
/// on.
pub open spec fn spec_hemi_bands(ew: u8, k: nat) -> Seq<Seq<char>>
    decreases k,
{
    if k == 0 {
        Seq::empty()
    } else {
        spec_hemi_bands(ew, (k - 1) as nat) + spec_lon_band(ew, ((k - 1) * 5) as nat)
    }
}

/// The full bulk-download order: every eastern band (0 through 175
/// degrees), then every western one.
pub open spec fn spec_all_segments() -> Seq<Seq<char>> {
    spec_hemi_bands(0x45, 36) + spec_hemi_bands(0x57, 36)
}

/// The tile name of one segment, e.g. `E0_N10`.
pub fn segment_name(ew: u8, e: u8, ns: u8, n: u8) -> (r: String)
    requires
        ew < 128,
        ns < 128,
    ensures
        r@ == spec_segment_name(ew, e as nat, ns, n as nat),
{
    let mut b: Vec<u8> = Vec::new();
    b.push(ew);
    push_dec_u64(e as u64, &mut b);
    b.push(0x5F);
    b.push(ns);
    push_dec_u64(n as u64, &mut b);
    proof {
        lemma_dec_bytes_ascii(e as nat);
        lemma_dec_bytes_ascii(n as nat);
        assert(b@ =~= seq![ew] + dec_bytes(e as nat) + seq![0x5Fu8] + seq![ns] + dec_bytes(
            n as nat,
        ));
    }
    ascii_string(b)
}

/// The names of every tile of the global grid, in the order the bulk
/// download fetches them.
pub fn all_segment_names() -> (r: Vec<String>)
    ensures
        r.deep_view() == spec_all_segments(),
{
    let mut out: Vec<String> = Vec::new();
    let mut k: u8 = 0;
    while k < 36
        invariant
            0 <= k <= 36,
            out.deep_view() == spec_hemi_bands(0x45, k as nat),
        decreases 36 - k,
    {
        push_lon_band(&mut out, 0x45, k * 5);
        proof {
            assert(spec_hemi_bands(0x45, k as nat + 1) == spec_hemi_bands(0x45, k as nat)
                + spec_lon_band(0x45, (k * 5) as nat));
        }
        k += 1;
    }
    let mut k: u8 = 0;
    while k < 36
        invariant
            0 <= k <= 36,
            out.deep_view() == spec_hemi_bands(0x45, 36) + spec_hemi_bands(0x57, k as nat),
        decreases 36 - k,
    {
        push_lon_band(&mut out, 0x57, k * 5);
        proof {
            assert(spec_hemi_bands(0x57, k as nat + 1) == spec_hemi_bands(0x57, k as nat)
                + spec_lon_band(0x57, (k * 5) as nat));
            assert(out.deep_view() =~~= spec_hemi_bands(0x45, 36) + spec_hemi_bands(
                0x57,
                k as nat + 1,
            ));
        }
        k += 1;
    }
    out
}

/// Append one longitude band: the northern sweep, then the southern.
fn push_lon_band(out: &mut Vec<String>, ew: u8, e: u8)
    requires
        ew < 128,
    ensures
        final(out).deep_view() == old(out).deep_view() + spec_lon_band(ew, e as nat),
{
    let mut j: u8 = 0;
    while j < 19
        invariant
            0 <= j <= 19,
            ew < 128,
            out.deep_view() == old(out).deep_view() + spec_lat_sweep(ew, e as nat, 0x4E, j as nat),
        decreases 19 - j,
    {
        let ghost prev_dv = out.deep_view();
        let name = segment_name(ew, e, 0x4E, j * 5);
        out.push(name);
        proof {
            assert(out.deep_view() =~~= prev_dv.push(
                spec_segment_name(ew, e as nat, 0x4E, (j * 5) as nat),
            ));
            assert((j * 5) as nat == (j as nat) * 5);
            assert(spec_lat_sweep(ew, e as nat, 0x4E, j as nat + 1) == spec_lat_sweep(
                ew,
                e as nat,
                0x4E,
                j as nat,
            ).push(spec_segment_name(ew, e as nat, 0x4E, (j as nat) * 5)));
            assert(out.deep_view() =~~= old(out).deep_view() + spec_lat_sweep(
                ew,
                e as nat,
                0x4E,
                j as nat + 1,
            ));
        }
        j += 1;
    }
    let mut j: u8 = 0;
    while j < 19
        invariant
            0 <= j <= 19,
            ew < 128,
            out.deep_view() == old(out).deep_view() + spec_lat_sweep(ew, e as nat, 0x4E, 19)
                + spec_lat_sweep(ew, e as nat, 0x53, j as nat),
        decreases 19 - j,
    {
        let ghost prev_dv = out.deep_view();
        let name = segment_name(ew, e, 0x53, j * 5);
        out.push(name);
        proof {
            assert(out.deep_view() =~~= prev_dv.push(
                spec_segment_name(ew, e as nat, 0x53, (j * 5) as nat),
            ));
            assert((j * 5) as nat == (j as nat) * 5);
            assert(spec_lat_sweep(ew, e as nat, 0x53, j as nat + 1) == spec_lat_sweep(
                ew,
                e as nat,
                0x53,
                j as nat,
            ).push(spec_segment_name(ew, e as nat, 0x53, (j as nat) * 5)));
            assert(out.deep_view() =~~= old(out).deep_view() + spec_lat_sweep(ew, e as nat, 0x4E, 19)
                + spec_lat_sweep(ew, e as nat, 0x53, j as nat + 1));
        }
        j += 1;
    }
    proof {
        assert(out.deep_view() =~~= old(out).deep_view() + spec_lon_band(ew, e as nat));
    }
}

/// The directory part of a path: everything before the last `/`, or
/// nothing when the path holds no `/`.
pub open spec fn spec_parent_dir(p: Seq<char>) -> Seq<char>
    decreases p.len(),
{
    if p.len() == 0 {
        Seq::empty()
    } else if p.last() == '/' {
        p.drop_last()
    } else {
        spec_parent_dir(p.drop_last())
    }
}

/// When `p[i]` is the last `/` of `p`, the parent is everything before
/// it.
proof fn lemma_parent_dir_at(p: Seq<char>, i: int)
    requires
        0 <= i < p.len(),
        p[i] == '/',
        forall|k: int| i < k < p.len() ==> p[k] != '/',
    ensures
        spec_parent_dir(p) == p.take(i),
    decreases p.len(),
{
    if i == p.len() - 1 {
        assert(p.take(i) =~= p.drop_last());
    } else {
        assert(p.last() != '/');
        lemma_parent_dir_at(p.drop_last(), i);
        assert(p.drop_last().take(i) =~= p.take(i));
    }
}

/// When `p` holds no `/` at all, the parent is empty.
proof fn lemma_parent_dir_none(p: Seq<char>)
    requires
        forall|k: int| 0 <= k < p.len() ==> p[k] != '/',
    ensures
        spec_parent_dir(p) == Seq::<char>::empty(),
    decreases p.len(),
{
    if p.len() > 0 {
        lemma_parent_dir_none(p.drop_last());
    }
}

/// The directory part of a path.
pub fn parent_dir(p: &str) -> (r: String)
    ensures
        r@ == spec_parent_dir(p@),
{
    let n = p.unicode_len();
    let mut j: usize = n;
    while j > 0
        invariant
            0 <= j <= n,
            n == p@.len(),
            forall|k: int| j <= k < p@.len() ==> p@[k] != '/',
        decreases j,
    {
        if p.get_char(j - 1) == '/' {
            let sub = p.substring_char(0, j - 1);
            proof {
                lemma_parent_dir_at(p@, j - 1);
            }
            return sub.to_owned();
        }
        j -= 1;
    }
    proof {
        lemma_parent_dir_none(p@);
    }
    String::new()
}

/// The engine's fixed local base URL.
pub open spec fn spec_base_url() -> Seq<char> {
    "http://localhost:17777"@
}

/// The bundled-profile directory that belongs to an installed jar.
pub open spec fn spec_profile_dir(jar: Seq<char>) -> Seq<char> {
    spec_parent_dir(jar) + "/profiles2"@
}

/// The fixed argument list the engine is spawned with: heap caps, the
/// request-duration cap, the classpath and server class, the segment,
/// bundled-profile and custom-profile directories, the port, one worker
/// thread, and the loopback host.
pub open spec fn spec_start_args(jar: Seq<char>, segments_dir: Seq<char>) -> Seq<Seq<char>> {
    seq![
        "-Xmx128M"@,
        "-Xms128M"@,
        "-Xmn8M"@,
        "-DmaxRunningTime=300"@,
        "-DuseRFCMimeType=false"@,
        "-cp"@,
        jar,
        "btools.server.RouteServer"@,
        segments_dir,
        spec_profile_dir(jar),
        "custom_profiles"@,
        "17777"@,
        "1"@,
        "localhost"@,
    ]
}

/// What one non-blocking poll of the child process reported.
#[derive(Debug, Clone, Copy, PartialEq, Eq, Structural)]
pub enum ProcessPoll {
    /// The process has exited.
    Exited,
    /// The process is still running.
    Alive,
    /// The poll itself failed.
    PollFailed,
}

/// What a start decision tells the caller to do.
#[derive(Debug)]
pub enum StartPlan {
    /// A live child is already tracked: hand back the base URL and spawn
    /// nothing.
    AlreadyUp(String),
    /// No executable archive was found in the install directory.
    NoJar,
    /// Create the profile directory, spawn the engine with these
    /// arguments from the install directory, record the child, then poll
    /// the base URL for readiness.
    Launch {
        /// The argument list for the `java` executable.
        args: Vec<String>,
        /// The bundled-profile directory to create before spawning.
        profile_dir: String,
        /// The base URL to poll and to hand back.
        url: String,
    },
}

/// What a start decision must be, given whether a live child is tracked
/// and which jar the install scan found.
pub open spec fn start_plan_post(
    s: ServerSupervisor,
    running: bool,
    jar: Option<Seq<char>>,
    r: StartPlan,
) -> bool {
    if running {
        r matches StartPlan::AlreadyUp(u) && u@ == spec_base_url()
    } else {
        match jar {
            None => r is NoJar,
            Some(j) => r matches StartPlan::Launch { args, profile_dir, url } && args.deep_view()
                == spec_start_args(j, s.segments_dir@) && profile_dir@ == spec_profile_dir(j)
                && url@ == spec_base_url(),
        }
    }
}

/// A stop transition: forget the handle, and kill only what was tracked.
pub open spec fn spec_stop(s: ServerSupervisor) -> (ServerSupervisor, bool) {
    (ServerSupervisor { tracking: false, ..s }, s.tracking)
}

/// The lifecycle manager's record: the directory layout, and whether a
/// child-process handle is held.  The caller owns the real handle; this
/// state mirrors its presence, and every transition tells the caller what
/// to do to keep the two in step.
pub struct ServerSupervisor {
    /// Base path where the engine is installed.
    pub base_path: String,
    /// The segments subdirectory under the base path.
    pub segments_dir: String,
    /// Whether a spawned child process is currently tracked.
    pub tracking: bool,
}

impl ServerSupervisor {
    /// Create a manager rooted at the given install directory; nothing is
    /// tracked yet.
    pub fn new(base_path: String) -> (s: Self)
        ensures
            s.base_path@ == base_path@,
            s.segments_dir@ == spec_segments_dir(base_path@),
            !s.tracking,
    {
        let mut segments_dir = base_path.clone();
        segments_dir.append("/segments4");
        ServerSupervisor { base_path, segments_dir, tracking: false }
    }

    /// The jar path of the installed engine, given the caller's listing
    /// of the install directory: the first `.jar` file inside the first
    /// entry whose name starts with the distribution prefix.
    pub fn find_jar_file(&self, entries: &Vec<DirEntry>) -> (r: Option<String>)
        ensures
            r matches Some(p) ==> spec_find_jar(self.base_path@, entries@) == Some(p@),
            r is None ==> spec_find_jar(self.base_path@, entries@) is None,
    {
        proof {
            assert(entries@.skip(0) =~= entries@);
        }
        let mut i: usize = 0;
        while i < entries.len()
            invariant
                0 <= i <= entries@.len(),
                spec_find_jar(self.base_path@, entries@) == spec_find_jar(
                    self.base_path@,
                    entries@.skip(i as int),
                ),
            decreases entries@.len() - i,
        {
            let ghost rest = entries@.skip(i as int);
            proof {
                assert(rest[0] == entries@[i as int]);
                assert(rest.drop_first() =~= entries@.skip(i as int + 1));
            }
            let entry = &entries[i];
            proof {
                reveal_strlit("brouter-");
                reveal_strlit(".jar");
            }
            if str_starts_with(entry.name.as_str(), "brouter-") {
                proof {
                    assert(entry.files@.skip(0) =~= entry.files@);
                }
                let mut j: usize = 0;
                while j < entry.files.len()
                    invariant
                        0 <= j <= entry.files@.len(),
                        0 <= i < entries@.len(),
                        *entry == entries@[i as int],
                        name_starts_with(entry.name@, "brouter-"@),
                        spec_find_jar(self.base_path@, entries@) == spec_find_jar(
                            self.base_path@,
                            entries@.skip(i as int),
                        ),
                        spec_first_jar(entry.files@) == spec_first_jar(entry.files@.skip(j as int)),
                    decreases entry.files@.len() - j,
                {
                    let ghost frest = entry.files@.skip(j as int);
                    proof {
                        assert(frest[0] == entry.files@[j as int]);
                        assert(frest.drop_first() =~= entry.files@.skip(j as int + 1));
                    }
                    let file = &entry.files[j];
                    proof {
                        reveal_strlit(".jar");
                    }
                    if str_ends_with(file.as_str(), ".jar") {
                        let mut path = self.base_path.clone();
                        path.append("/");
                        path.append(entry.name.as_str());
                        path.append("/");
                        path.append(file.as_str());
                        proof {
                            let expected = self.base_path@ + "/"@ + entry.name@ + "/"@ + file@;
                            let rest_here = entries@.skip(i as int);
                            assert(path@ =~= expected);
                            assert(rest_here[0] == entries@[i as int]);
                            assert(*file == entry.files@[j as int]);
                            assert(frest[0] == entry.files@[j as int]);
                            assert(spec_first_jar(frest) == Some(file@));
                            assert(spec_first_jar(entry.files@) == Some(file@));
                            assert(spec_find_jar(self.base_path@, rest_here) == Some(expected));
                        }
                        return Some(path);
                    }
                    j += 1;
                }
                proof {
                    assert(entry.files@.skip(entry.files@.len() as int) =~= Seq::<String>::empty());
                    assert(spec_first_jar(entry.files@) is None);
                }
            }
            i += 1;
        }
        proof {
            assert(entries@.skip(entries@.len() as int) =~= Seq::<DirEntry>::empty());
        }
        None
    }

    /// Whether the engine distribution is already installed, per the
    /// scan.
    pub fn has_downloaded(&self, entries: &Vec<DirEntry>) -> (r: bool)
        ensures
            r == (spec_find_jar(self.base_path@, entries@) is Some),
    {
        self.find_jar_file(entries).is_some()
    }

    /// The path a segment file lives at: `<segments>/<TILE>.rd5`.
    pub fn segment_path(&self, segment: &str) -> (r: String)
        ensures
            r@ == self.segments_dir@ + "/"@ + segment@ + ".rd5"@,
    {
        let mut r = self.segments_dir.clone();
        r.append("/");
        r.append(segment);
        r.append(".rd5");
        r
    }

    /// Whether the manager's child is running: only a tracked, live child
    /// counts.  The caller hands in its non-blocking poll, or nothing when
    /// it holds no child; a failed poll counts as not running.
    pub fn is_running(&self, poll: Option<ProcessPoll>) -> (r: bool)
        requires
            poll is Some <==> self.tracking,
        ensures
            r == (poll matches Some(p) && p is Alive),
    {
        match poll {
            Some(p) => match p {
                ProcessPoll::Alive => true,
                ProcessPoll::Exited => false,
                ProcessPoll::PollFailed => false,
            },
            None => false,
        }
    }

    /// Whether one probe of the engine's root URL found it serving: the
    /// root answers 404 by design, and no response at all means not yet.
    pub fn is_serving(&self, root_status: Option<u16>) -> (r: bool)
        ensures
            r == (root_status matches Some(st) && st == 404),
    {
        match root_status {
            Some(st) => st == 404,
            None => false,
        }
    }

    /// Decide a start: a live child short-circuits to the known base URL
    /// without a spawn; otherwise the scanned jar is to be launched, or
    /// its absence reported.
    pub fn start_plan(&self, running: bool, jar: Option<&String>) -> (r: StartPlan)
        ensures
            start_plan_post(
                *self,
                running,
                match jar {
                    Some(j) => Some(j@),
                    None => None,
                },
                r,
            ),
    {
        if running {
            return StartPlan::AlreadyUp(base_url());
        }
        match jar {
            None => StartPlan::NoJar,
            Some(j) => {
                let mut profile_dir = parent_dir(j.as_str());
                profile_dir.append("/profiles2");
                let mut args: Vec<String> = Vec::new();
                args.push(String::from_str("-Xmx128M"));
                args.push(String::from_str("-Xms128M"));
                args.push(String::from_str("-Xmn8M"));
                args.push(String::from_str("-DmaxRunningTime=300"));
                args.push(String::from_str("-DuseRFCMimeType=false"));
                args.push(String::from_str("-cp"));
                args.push(j.clone());
                args.push(String::from_str("btools.server.RouteServer"));
                args.push(self.segments_dir.clone());
                args.push(profile_dir.clone());
                args.push(String::from_str("custom_profiles"));
                args.push(String::from_str("17777"));
                args.push(String::from_str("1"));
                args.push(String::from_str("localhost"));
                proof {
                    assert(args.deep_view() =~~= spec_start_args(j@, self.segments_dir@));
                }
                StartPlan::Launch { args, profile_dir, url: base_url() }
            },
        }
    }

    /// Record that the caller has spawned the child of the latest launch
    /// plan.
    pub fn note_spawned(&mut self)
        ensures
            *final(self) == (ServerSupervisor { tracking: true, ..*old(self) }),
    {
        self.tracking = true;
    }

    /// Decide a stop: report whether a tracked child must be killed, and
    /// stop tracking either way.
    pub fn stop(&mut self) -> (kill: bool)
        ensures
            (*final(self), kill) == spec_stop(*old(self)),
    {
        let kill = self.tracking;
        self.tracking = false;
        kill
    }
}

/// Stopping is idempotent and total: every stop leaves nothing tracked
/// and the directories unchanged; a second stop right after a first, and
/// a stop when nothing was ever started, ask for no kill.
pub proof fn lemma_stop_idempotent(s: ServerSupervisor)
    ensures
        !spec_stop(s).0.tracking,
        spec_stop(spec_stop(s).0).1 == false,
        !s.tracking ==> spec_stop(s).1 == false,
        spec_stop(s).0.base_path == s.base_path,
        spec_stop(s).0.segments_dir == s.segments_dir,
{
}

/// While the first child is alive, starting is idempotent: any two start
/// decisions return the engine's one base URL, and neither asks for a
/// spawn.
pub proof fn lemma_start_idempotent_while_running(
    s: ServerSupervisor,
    jar1: Option<Seq<char>>,
    jar2: Option<Seq<char>>,
    r1: StartPlan,
    r2: StartPlan,
)
    requires
        start_plan_post(s, true, jar1, r1),
        start_plan_post(s, true, jar2, r2),
    ensures
        r1 matches StartPlan::AlreadyUp(u1) && r2 matches StartPlan::AlreadyUp(u2) && u1@ == u2@,
        !(r1 is Launch),
        !(r2 is Launch),
{
}

/// The engine's fixed local base URL.
pub fn base_url() -> (r: String)
    ensures
        r@ == spec_base_url(),
{
    String::from_str("http://localhost:17777")
}

/// The URL of the engine's distribution archive, at the fixed version
/// this client installs.
pub fn distribution_url() -> (r: String)
    ensures
        r@ == "https://github.com/abrensch/brouter/releases/download/v1.7.7/brouter-1.7.7.zip"@,
{
    String::from_str("https://github.com/abrensch/brouter/releases/download/v1.7.7/brouter-1.7.7.zip")
}

/// The URL a segment tile is fetched from.
pub fn segment_url(segment: &str) -> (r: String)
    ensures
        r@ == "https://brouter.de/brouter/segments4/"@ + segment@ + ".rd5"@,
{
    let mut r = String::from_str("https://brouter.de/brouter/segments4/");
    r.append(segment);
    r.append(".rd5");
    r
}

/// Whether a fetched archive or tile may be used: only a 200 status.
pub fn fetch_succeeded(status: u16) -> (r: bool)
    ensures
        r == (status == 200),
{
    status == 200
}

/// The bounded readiness poll of a freshly spawned engine: at most ten
/// probes with a pause apiece; when they run out, the start returns
/// anyway, and the caller must tolerate racing a not-yet-ready server.
pub struct ReadinessPoller {
    /// Probe attempts left.
    pub remaining: u8,
}

impl ReadinessPoller {
    /// A fresh poller with the fixed budget of ten probes.
    pub fn new() -> (p: Self)
        ensures
            p.remaining == 10,
    {
        ReadinessPoller { remaining: 10 }
    }

    /// Whether another probe may still be made.
    pub fn attempts_left(&self) -> (r: bool)
        ensures
            r == (self.remaining > 0),
    {
        self.remaining > 0
    }

    /// Account one probe that did not find the engine serving.
    pub fn record_attempt(&mut self)
        requires
            old(self).remaining > 0,
        ensures
            final(self).remaining == old(self).remaining - 1,
    {
        self.remaining = self.remaining - 1;
    }
}

} // verus!
