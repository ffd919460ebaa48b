//! The pure half of the engine client: normalizing raw engine responses
//! into this system's own data shapes. The engine calls themselves are
//! asynchronous I/O and live outside this library; they hand these
//! functions plain values.

use vstd::prelude::*;

use crate::models::PortMapping;
use crate::models::PortMappingView;
use crate::models::ContainerSummary;
use crate::models::LocalImageSummary;
use crate::models::LocalImageSummaryView;
use crate::models::ContainerPortMapping;
use crate::models::ContainerPortMappingView;
use crate::models::EnvironmentVariable;
use crate::models::EnvironmentVariableView;
use crate::models::CreateContainerRequest;
use crate::strutil::is_digit;
use crate::strutil::spec_starts_with;
use crate::strutil::spec_contains;
use crate::strutil::spec_parse_u16;
use crate::strutil::spec_trim;
use crate::strutil::dec_rep;
use crate::strutil::find_char;
use crate::strutil::str_to_chars;
use crate::strutil::chars_to_string;
use crate::strutil::chars_range_to_string;
use crate::strutil::parse_u16_chars;
use crate::strutil::starts_with;
use crate::strutil::contains_sub;
use crate::strutil::trim_range;
use crate::strutil::find_char_range;
use crate::strutil::u64_dec_chars;
use crate::sort::sort_by_le;
use crate::sort::port_le_fn;
use crate::sort::str_le_fn;
use crate::sort::cport_le_fn;
use crate::sort::env_le_fn;
use crate::sort::sort_ports;
use crate::sort::sort_strings;
use crate::sort::sort_exposed_ports;
use crate::sort::sort_env_vars;

verus! {

// ---------------------------------------------------------------------------
// Image-reference classification
// ---------------------------------------------------------------------------

pub open spec fn is_hex_digit(c: char) -> bool {
    ||| is_digit(c)
    ||| (97 <= (c as u32) && (c as u32) <= 102)
    ||| (65 <= (c as u32) && (c as u32) <= 70)
}

/// An image reference that is really a raw content hash or the engine's
/// untagged placeholder, rather than a human tag: a 64-character hex
/// string, a `sha256:`-prefixed digest, or a `<none>` marker.
pub open spec fn spec_is_image_id(s: Seq<char>) -> bool {
    ||| (s.len() == 64 && forall|i: int| 0 <= i < s.len() ==> is_hex_digit(#[trigger] s[i]))
    ||| spec_starts_with(s, "sha256:"@)
    ||| spec_contains(s, "<none>"@)
}

fn is_hex_digit_exec(c: char) -> (r: bool)
    ensures
        r == is_hex_digit(c),
{
    let u: u32 = c as u32;
    (48 <= u && u <= 57) || (97 <= u && u <= 102) || (65 <= u && u <= 70)
}

/// Whether an image reference is a bare image id rather than a tag.
pub fn is_image_id(image_name: &str) -> (r: bool)
    ensures
        r == spec_is_image_id(image_name@),
{
    let v = str_to_chars(image_name);
    let n: usize = v.len();
    let mut all_hex: bool = true;
    if n == 64 {
        let mut i: usize = 0;
        while i < 64
            invariant
                v@ == image_name@,
                n == v@.len(),
                n == 64,
                i <= 64,
                all_hex == (forall|j: int| 0 <= j < i ==> is_hex_digit(#[trigger] v@[j])),
            decreases 64 - i,
        {
            if !is_hex_digit_exec(v[i]) {
                all_hex = false;
                i = 64;
            } else {
                i = i + 1;
            }
        }
    } else {
        all_hex = false;
    }
    if all_hex && n == 64 {
        return true;
    }
    if starts_with(image_name, "sha256:") {
        return true;
    }
    contains_sub(image_name, "<none>")
}

// ---------------------------------------------------------------------------
// Container names
// ---------------------------------------------------------------------------

/// The engine reports names with a leading `/`; display strips every
/// leading slash.
pub open spec fn spec_clean_name(s: Seq<char>) -> Seq<char>
    decreases s.len(),
{
    if s.len() > 0 && s[0] == '/' {
        spec_clean_name(s.skip(1))
    } else {
        s
    }
}

/// Strips leading slashes from an engine-reported container name.
pub fn clean_container_name(raw: &str) -> (r: String)
    ensures
        r@ == spec_clean_name(raw@),
{
    let v = str_to_chars(raw);
    let n: usize = v.len();
    let mut a: usize = 0;
    let mut stop: bool = false;
    proof {
        assert(raw@.skip(0) =~= raw@);
    }
    while !stop
        invariant
            v@ == raw@,
            n == v@.len(),
            a <= n,
            spec_clean_name(raw@) == spec_clean_name(raw@.skip(a as int)),
            stop ==> a == n || raw@[a as int] != '/',
        decreases n - a, (if stop { 0int } else { 1int }),
    {
        if a >= n {
            stop = true;
        } else if v[a] == '/' {
            proof {
                assert(raw@.skip(a as int)[0] == raw@[a as int]);
                assert(raw@.skip(a as int).skip(1) =~= raw@.skip(a + 1));
            }
            a = a + 1;
        } else {
            stop = true;
        }
    }
    proof {
        if a < n {
            assert(raw@.skip(a as int)[0] == raw@[a as int]);
        }
        assert(spec_clean_name(raw@.skip(a as int)) == raw@.skip(a as int));
        assert(v@.subrange(a as int, n as int) =~= raw@.skip(a as int));
    }
    chars_range_to_string(&v, a, n)
}

// ---------------------------------------------------------------------------
// Port keys
// ---------------------------------------------------------------------------

/// A digit string's value, with the engine client's permissive fallback:
/// anything unparsable counts as port zero.
pub open spec fn spec_parse_port_or_zero(s: Seq<char>) -> u16 {
    match spec_parse_u16(s) {
        Some(v) => v,
        None => 0,
    }
}

/// The container port a compound `port/protocol` key declares.
pub open spec fn spec_key_port(s: Seq<char>) -> u16 {
    let k = find_char(s, '/');
    if k < s.len() {
        spec_parse_port_or_zero(s.take(k))
    } else {
        spec_parse_port_or_zero(s)
    }
}

/// The protocol a compound `port/protocol` key declares; `tcp` when the
/// key has no protocol part.
pub open spec fn spec_key_protocol(s: Seq<char>) -> Seq<char> {
    let k = find_char(s, '/');
    if k < s.len() {
        s.skip(k + 1)
    } else {
        "tcp"@
    }
}

/// Splits a `port/protocol` key into its port and protocol.
pub fn parse_port_key(key: &str) -> (r: (u16, String))
    ensures
        r.0 == spec_key_port(key@),
        r.1@ == spec_key_protocol(key@),
{
    let v = str_to_chars(key);
    let n: usize = v.len();
    let k = find_char_range(&v, 0, n, '/');
    proof {
        assert(v@.subrange(0, n as int) =~= key@);
    }
    if k < n {
        let port_part = crate::strutil::chars_range_to_string(&v, 0, k);
        let pv = str_to_chars(port_part.as_str());
        proof {
            assert(pv@ =~= key@.take(k as int));
        }
        let port = match parse_u16_chars(&pv) {
            Some(p) => p,
            None => 0,
        };
        let proto = chars_range_to_string(&v, k + 1, n);
        proof {
            assert(v@.subrange(k + 1, n as int) =~= key@.skip(k + 1));
        }
        (port, proto)
    } else {
        let port = match parse_u16_chars(&v) {
            Some(p) => p,
            None => 0,
        };
        proof {
            assert(v@ =~= key@.take(k as int));
            assert(key@.take(k as int) =~= key@);
        }
        let mut tcp: Vec<char> = Vec::new();
        tcp.push('t');
        tcp.push('c');
        tcp.push('p');
        proof {
            reveal_strlit("tcp");
            assert(tcp@ =~= "tcp"@);
        }
        (port, chars_to_string(&tcp))
    }
}

// ---------------------------------------------------------------------------
// Image listing
// ---------------------------------------------------------------------------

/// An image belongs in the listing when at least one of its tags is a
/// real human tag, not the untagged placeholder.
pub open spec fn spec_image_included(v: LocalImageSummaryView) -> bool {
    exists|i: int| 0 <= i < v.repo_tags.len() && !spec_contains(#[trigger] v.repo_tags[i], "<none>"@)
}

/// The listing: images kept in order, those with only placeholder tags
/// dropped.
pub open spec fn spec_filter_images(s: Seq<LocalImageSummaryView>) -> Seq<LocalImageSummaryView>
    decreases s.len(),
{
    if s.len() == 0 {
        Seq::empty()
    } else if spec_image_included(s.last()) {
        spec_filter_images(s.drop_last()).push(s.last())
    } else {
        spec_filter_images(s.drop_last())
    }
}

fn clone_strings(v: &Vec<String>) -> (r: Vec<String>)
    ensures
        r@.map_values(|s: String| s@) == v@.map_values(|s: String| s@),
{
    let mut out: Vec<String> = Vec::new();
    let n: usize = v.len();
    let mut i: usize = 0;
    while i < n
        invariant
            n == v@.len(),
            i <= n,
            out@.len() == i,
            forall|j: int| 0 <= j < i ==> #[trigger] out@[j]@ == v@[j]@,
        decreases n - i,
    {
        out.push(v[i].clone());
        i = i + 1;
    }
    proof {
        assert(out@.map_values(|s: String| s@) =~= v@.map_values(|s: String| s@));
    }
    out
}

fn image_included(img: &LocalImageSummary) -> (r: bool)
    ensures
        r == spec_image_included(img@),
{
    let n: usize = img.repo_tags.len();
    let mut i: usize = 0;
    while i < n
        invariant
            n == img.repo_tags@.len(),
            i <= n,
            forall|j: int| 0 <= j < i ==> spec_contains(#[trigger] img@.repo_tags[j], "<none>"@),
        decreases n - i,
    {
        if !contains_sub(img.repo_tags[i].as_str(), "<none>") {
            proof {
                assert(img@.repo_tags[i as int] == img.repo_tags@[i as int]@);
            }
            return true;
        }
        proof {
            assert(img@.repo_tags[i as int] == img.repo_tags@[i as int]@);
        }
        i = i + 1;
    }
    false
}

/// Keeps only images with at least one real tag, in their given order.
pub fn filter_images(images: Vec<LocalImageSummary>) -> (r: Vec<LocalImageSummary>)
    ensures
        r@.map_values(|x: LocalImageSummary| x@) == spec_filter_images(
            images@.map_values(|x: LocalImageSummary| x@),
        ),
{
    let ghost sv = images@.map_values(|x: LocalImageSummary| x@);
    let mut out: Vec<LocalImageSummary> = Vec::new();
    let n: usize = images.len();
    let mut i: usize = 0;
    proof {
        assert(sv.take(0) =~= Seq::<LocalImageSummaryView>::empty());
        assert(out@.map_values(|x: LocalImageSummary| x@) =~= spec_filter_images(sv.take(0)));
    }
    while i < n
        invariant
            n == images@.len(),
            sv == images@.map_values(|x: LocalImageSummary| x@),
            i <= n,
            out@.map_values(|x: LocalImageSummary| x@) == spec_filter_images(sv.take(i as int)),
        decreases n - i,
    {
        let ghost outv = out@.map_values(|x: LocalImageSummary| x@);
        proof {
            assert(sv.take(i + 1).drop_last() =~= sv.take(i as int));
            assert(sv.take(i + 1).last() == sv[i as int]);
            assert(sv[i as int] == images@[i as int]@);
        }
        if image_included(&images[i]) {
            let copy = LocalImageSummary {
                id: images[i].id.clone(),
                repo_tags: clone_strings(&images[i].repo_tags),
            };
            proof {
                assert(copy@ == images@[i as int]@) by {
                    assert(copy@.repo_tags =~= images@[i as int]@.repo_tags);
                }
            }
            out.push(copy);
            proof {
                assert(out@.map_values(|x: LocalImageSummary| x@) =~= outv.push(sv[i as int]));
            }
        }
        i = i + 1;
    }
    proof {
        assert(sv.take(n as int) =~= sv);
    }
    out
}

// ---------------------------------------------------------------------------
// Port bindings of a running container
// ---------------------------------------------------------------------------

/// One entry of the engine's inspected port map, reduced to what this
/// logic reads: the compound key and the host-port strings of its
/// bindings.
pub struct RawPortEntry {
    pub key: String,
    pub host_ports: Vec<Option<String>>,
}

pub struct RawPortEntryView {
    pub key: Seq<char>,
    pub host_ports: Seq<Option<Seq<char>>>,
}

impl View for RawPortEntry {
    type V = RawPortEntryView;

    open spec fn view(&self) -> RawPortEntryView {
        RawPortEntryView {
            key: self.key@,
            host_ports: self.host_ports@.map_values(
                |h: Option<String>|
                    match h {
                        Some(s) => Some(s@),
                        None => None,
                    },
            ),
        }
    }
}

/// The host port of one binding: the parsed value when it parses, else
/// nothing.
pub open spec fn spec_host_port(h: Option<Seq<char>>) -> Option<u16> {
    match h {
        Some(s) => spec_parse_u16(s),
        None => None,
    }
}

/// The mappings one port-map entry contributes, in binding order.
pub open spec fn spec_entry_ports(e: RawPortEntryView) -> Seq<PortMappingView> {
    e.host_ports.map_values(
        |h: Option<Seq<char>>|
            PortMappingView {
                container_port: spec_key_port(e.key),
                host_port: spec_host_port(h),
                protocol: spec_key_protocol(e.key),
            },
    )
}

/// All mappings of a port map, in entry then binding order, unsorted.
pub open spec fn spec_raw_ports(s: Seq<RawPortEntryView>) -> Seq<PortMappingView>
    decreases s.len(),
{
    if s.len() == 0 {
        Seq::empty()
    } else {
        spec_raw_ports(s.drop_last()) + spec_entry_ports(s.last())
    }
}

/// Turns an inspected port map into display mappings, sorted by
/// container port then protocol.
pub fn build_port_mappings(entries: &Vec<RawPortEntry>) -> (r: Vec<PortMapping>)
    ensures
        r@.map_values(|p: PortMapping| p@) == sort_by_le(
            port_le_fn(),
            spec_raw_ports(entries@.map_values(|e: RawPortEntry| e@)),
        ),
{
    let ghost ev = entries@.map_values(|e: RawPortEntry| e@);
    let mut flat: Vec<PortMapping> = Vec::new();
    let n: usize = entries.len();
    let mut i: usize = 0;
    proof {
        assert(ev.take(0) =~= Seq::<RawPortEntryView>::empty());
        assert(flat@.map_values(|p: PortMapping| p@) =~= spec_raw_ports(ev.take(0)));
    }
    while i < n
        invariant
            n == entries@.len(),
            ev == entries@.map_values(|e: RawPortEntry| e@),
            i <= n,
            flat@.map_values(|p: PortMapping| p@) == spec_raw_ports(ev.take(i as int)),
        decreases n - i,
    {
        let (port, proto) = parse_port_key(entries[i].key.as_str());
        let ghost evi = ev[i as int];
        proof {
            assert(evi == entries@[i as int]@);
            assert(evi.key == entries@[i as int].key@);
        }
        let m: usize = entries[i].host_ports.len();
        let mut j: usize = 0;
        proof {
            assert(evi.host_ports.len() == m);
        }
        while j < m
            invariant
                n == entries@.len(),
                ev == entries@.map_values(|e: RawPortEntry| e@),
                i < n,
                evi == ev[i as int],
                evi.key == entries@[i as int].key@,
                m == entries@[i as int].host_ports@.len(),
                evi.host_ports.len() == m,
                j <= m,
                port == spec_key_port(evi.key),
                proto@ == spec_key_protocol(evi.key),
                flat@.map_values(|p: PortMapping| p@) == spec_raw_ports(ev.take(i as int))
                    + spec_entry_ports(evi).take(j as int),
            decreases m - j,
        {
            let ghost flatv = flat@.map_values(|p: PortMapping| p@);
            let host_port: Option<u16> = match &entries[i].host_ports[j] {
                Some(s) => {
                    let hv = str_to_chars(s.as_str());
                    parse_u16_chars(&hv)
                },
                None => None,
            };
            proof {
                assert(evi.host_ports[j as int] == match entries@[i as int].host_ports@[j as int] {
                    Some(s) => Some(s@),
                    None => None::<Seq<char>>,
                });
                assert(host_port == spec_host_port(evi.host_ports[j as int]));
            }
            let pm = PortMapping { container_port: port, host_port, protocol: proto.clone() };
            let ghost pre_flat = flat@;
            flat.push(pm);
            proof {
                assert(spec_entry_ports(evi)[j as int] == pm@);
                assert(spec_entry_ports(evi).take(j + 1) =~= spec_entry_ports(evi).take(
                    j as int,
                ).push(pm@));
                assert(flat@ =~= pre_flat.push(pm));
                assert(flat@.map_values(|p: PortMapping| p@) =~= pre_flat.map_values(
                    |p: PortMapping| p@,
                ).push(pm@));
                assert(flat@.map_values(|p: PortMapping| p@) =~= spec_raw_ports(ev.take(i as int))
                    + spec_entry_ports(evi).take(j + 1));
            }
            j = j + 1;
        }
        proof {
            assert(spec_entry_ports(evi).take(m as int) =~= spec_entry_ports(evi));
            assert(ev.take(i + 1).drop_last() =~= ev.take(i as int));
            assert(ev.take(i + 1).last() == evi);
            assert(flat@.map_values(|p: PortMapping| p@) =~= spec_raw_ports(ev.take(i + 1)));
        }
        i = i + 1;
    }
    proof {
        assert(ev.take(n as int) =~= ev);
    }
    sort_ports(flat)
}

// ---------------------------------------------------------------------------
// Container summaries
// ---------------------------------------------------------------------------

/// Assembles the display summary of one running container from its
/// inspected data: the name loses its leading slashes, ports come out
/// sorted by container port then protocol, and the environment comes
/// out lexically sorted. When inspection failed the caller passes empty
/// ports and environment and the summary degrades gracefully.
pub fn build_container_summary(
    id: String,
    raw_name: &str,
    image: String,
    status: String,
    ports: &Vec<RawPortEntry>,
    environment: Vec<String>,
) -> (r: ContainerSummary)
    ensures
        r.id@ == id@,
        r.name@ == spec_clean_name(raw_name@),
        r.image@ == image@,
        r.status@ == status@,
        r@.ports == sort_by_le(
            port_le_fn(),
            spec_raw_ports(ports@.map_values(|e: RawPortEntry| e@)),
        ),
        r@.environment == sort_by_le(str_le_fn(), environment@.map_values(|s: String| s@)),
{
    let name = clean_container_name(raw_name);
    let sorted_ports = build_port_mappings(ports);
    let sorted_env = sort_strings(environment);
    ContainerSummary { id, name, image, status, ports: sorted_ports, environment: sorted_env }
}

// ---------------------------------------------------------------------------
// Container names for creation
// ---------------------------------------------------------------------------

/// The repository segment of an image reference (up to the first `:`),
/// with `/` replaced by `-`.
pub open spec fn spec_name_prefix(image: Seq<char>) -> Seq<char> {
    image.take(find_char(image, ':')).map_values(
        |c: char|
            if c == '/' {
                '-'
            } else {
                c
            },
    )
}

/// An auto-generated container name: the image's repository segment plus
/// a low-entropy numeric suffix derived from the current time.
pub open spec fn spec_generated_name(image: Seq<char>, now_secs: u64) -> Seq<char> {
    spec_name_prefix(image) + seq!['-'] + dec_rep((now_secs % 10000) as nat)
}

/// Generates a container name from an image reference and the current
/// unix time.
pub fn generate_container_name(image: &str, now_secs: u64) -> (r: String)
    ensures
        r@ == spec_generated_name(image@, now_secs),
{
    let v = str_to_chars(image);
    let n: usize = v.len();
    let k = find_char_range(&v, 0, n, ':');
    proof {
        assert(v@.subrange(0, n as int) =~= image@);
    }
    let mut out: Vec<char> = Vec::new();
    let mut i: usize = 0;
    while i < k
        invariant
            v@ == image@,
            n == v@.len(),
            k <= n,
            k == find_char(image@, ':'),
            i <= k,
            out@ == image@.take(k as int).map_values(
                |c: char|
                    if c == '/' {
                        '-'
                    } else {
                        c
                    },
            ).take(i as int),
        decreases k - i,
    {
        let c = v[i];
        if c == '/' {
            out.push('-');
        } else {
            out.push(c);
        }
        proof {
            let mapped = image@.take(k as int).map_values(
                |c: char|
                    if c == '/' {
                        '-'
                    } else {
                        c
                    },
            );
            assert(mapped[i as int] == if image@[i as int] == '/' {
                '-'
            } else {
                image@[i as int]
            });
            assert(out@ =~= mapped.take(i + 1));
        }
        i = i + 1;
    }
    proof {
        let mapped = image@.take(k as int).map_values(
            |c: char|
                if c == '/' {
                    '-'
                } else {
                    c
                },
        );
        assert(out@ =~= mapped);
    }
    out.push('-');
    let digits = u64_dec_chars(now_secs % 10000);
    let m: usize = digits.len();
    let mut j: usize = 0;
    let ghost mid = out@;
    while j < m
        invariant
            m == digits@.len(),
            j <= m,
            out@ == mid + digits@.take(j as int),
        decreases m - j,
    {
        out.push(digits[j]);
        proof {
            assert(digits@.take(j + 1) =~= digits@.take(j as int).push(digits@[j as int]));
            assert(out@ =~= mid + digits@.take(j + 1));
        }
        j = j + 1;
    }
    proof {
        assert(digits@.take(m as int) =~= digits@);
        assert(out@ =~= spec_generated_name(image@, now_secs));
    }
    chars_to_string(&out)
}

// ---------------------------------------------------------------------------
// The creation plan
// ---------------------------------------------------------------------------

/// The restart policies the engine understands.
pub enum RestartPolicyKind {
    Never,
    Always,
    UnlessStopped,
    OnFailure,
}

/// A restart policy with its retry cap: `OnFailure` carries a fixed
/// small cap, the others none.
pub struct RestartPolicyPlan {
    pub kind: RestartPolicyKind,
    pub maximum_retry_count: Option<u64>,
}

/// One port to expose and bind: the compound `port/protocol` key and the
/// host port it binds to.
pub struct PortSpec {
    pub key: String,
    pub host_port: u16,
}

pub struct PortSpecView {
    pub key: Seq<char>,
    pub host_port: u16,
}

impl View for PortSpec {
    type V = PortSpecView;

    open spec fn view(&self) -> PortSpecView {
        PortSpecView { key: self.key@, host_port: self.host_port }
    }
}

/// Everything the engine needs to create and start a container, computed
/// from a creation request before any engine call is made.
pub struct CreatePlan {
    pub container_name: String,
    pub env: Vec<String>,
    pub port_specs: Vec<PortSpec>,
    pub restart_policy: Option<RestartPolicyPlan>,
}

/// How a policy string maps to the engine's enumeration; unrecognized
/// values fall back to `Never`, deliberately permissive.
pub open spec fn spec_policy_kind(s: Seq<char>) -> RestartPolicyKind {
    if s == "always"@ {
        RestartPolicyKind::Always
    } else if s == "unless-stopped"@ {
        RestartPolicyKind::UnlessStopped
    } else if s == "on-failure"@ {
        RestartPolicyKind::OnFailure
    } else {
        RestartPolicyKind::Never
    }
}

/// One environment entry in engine form: `KEY=VALUE`.
pub open spec fn spec_env_line(e: EnvironmentVariableView) -> Seq<char> {
    e.key + seq!['='] + e.value
}

/// The port specs a request's mappings produce, in order: the zero port
/// is the "not specified" sentinel and is skipped; an absent host port
/// defaults to the container port.
pub open spec fn spec_plan_ports(s: Seq<ContainerPortMappingView>) -> Seq<PortSpecView>
    decreases s.len(),
{
    if s.len() == 0 {
        Seq::empty()
    } else if s.last().container_port == 0 {
        spec_plan_ports(s.drop_last())
    } else {
        spec_plan_ports(s.drop_last()).push(
            PortSpecView {
                key: dec_rep(s.last().container_port as nat) + seq!['/'] + s.last().protocol,
                host_port: match s.last().host_port {
                    Some(h) => h,
                    None => s.last().container_port,
                },
            },
        )
    }
}

/// Builds the creation plan from a request: a name (given or generated),
/// `KEY=VALUE` environment lines, the port specs, and the restart
/// policy with its retry cap.
pub fn build_create_plan(req: &CreateContainerRequest, now_secs: u64) -> (r: CreatePlan)
    ensures
        r.container_name@ == match req.container_name {
            Some(n) => n@,
            None => spec_generated_name(req.image_name@, now_secs),
        },
        r.env@.map_values(|s: String| s@) == req.environment_variables@.map_values(
            |e: EnvironmentVariable| spec_env_line(e@),
        ),
        r.port_specs@.map_values(|p: PortSpec| p@) == spec_plan_ports(
            req.port_mappings@.map_values(|p: ContainerPortMapping| p@),
        ),
        match (req.restart_policy, r.restart_policy) {
            (Some(s), Some(plan)) => plan.kind == spec_policy_kind(s@)
                && plan.maximum_retry_count == (if s@ == "on-failure"@ {
                Some(3u64)
            } else {
                None::<u64>
            }),
            (None, None) => true,
            _ => false,
        },
{
    let container_name: String = match &req.container_name {
        Some(n) => n.clone(),
        None => generate_container_name(req.image_name.as_str(), now_secs),
    };
    let mut env: Vec<String> = Vec::new();
    let n_env: usize = req.environment_variables.len();
    let mut i: usize = 0;
    while i < n_env
        invariant
            n_env == req.environment_variables@.len(),
            i <= n_env,
            env@.len() == i,
            forall|j: int|
                0 <= j < i ==> #[trigger] env@[j]@ == spec_env_line(
                    req.environment_variables@[j]@,
                ),
        decreases n_env - i,
    {
        let e = &req.environment_variables[i];
        let mut line: Vec<char> = str_to_chars(e.key.as_str());
        line.push('=');
        let valv = str_to_chars(e.value.as_str());
        let nv: usize = valv.len();
        let mut j: usize = 0;
        let ghost mid = line@;
        while j < nv
            invariant
                nv == valv@.len(),
                j <= nv,
                line@ == mid + valv@.take(j as int),
            decreases nv - j,
        {
            line.push(valv[j]);
            proof {
                assert(valv@.take(j + 1) =~= valv@.take(j as int).push(valv@[j as int]));
                assert(line@ =~= mid + valv@.take(j + 1));
            }
            j = j + 1;
        }
        proof {
            assert(valv@.take(nv as int) =~= valv@);
            assert(line@ =~= spec_env_line(req.environment_variables@[i as int]@));
        }
        env.push(chars_to_string(&line));
        i = i + 1;
    }
    proof {
        assert(env@.map_values(|s: String| s@) =~= req.environment_variables@.map_values(
            |e: EnvironmentVariable| spec_env_line(e@),
        ));
    }
    let ghost pmv = req.port_mappings@.map_values(|p: ContainerPortMapping| p@);
    let mut port_specs: Vec<PortSpec> = Vec::new();
    let n_ports: usize = req.port_mappings.len();
    let mut k: usize = 0;
    proof {
        assert(pmv.take(0) =~= Seq::<ContainerPortMappingView>::empty());
        assert(port_specs@.map_values(|p: PortSpec| p@) =~= spec_plan_ports(pmv.take(0)));
    }
    while k < n_ports
        invariant
            n_ports == req.port_mappings@.len(),
            pmv == req.port_mappings@.map_values(|p: ContainerPortMapping| p@),
            k <= n_ports,
            port_specs@.map_values(|p: PortSpec| p@) == spec_plan_ports(pmv.take(k as int)),
        decreases n_ports - k,
    {
        let ghost psv = port_specs@.map_values(|p: PortSpec| p@);
        let pm = &req.port_mappings[k];
        proof {
            assert(pmv.take(k + 1).drop_last() =~= pmv.take(k as int));
            assert(pmv.take(k + 1).last() == pmv[k as int]);
            assert(pmv[k as int] == req.port_mappings@[k as int]@);
        }
        if pm.container_port != 0 {
            let mut keyv: Vec<char> = u64_dec_chars(pm.container_port as u64);
            keyv.push('/');
            let protov = str_to_chars(pm.protocol.as_str());
            let np: usize = protov.len();
            let mut j: usize = 0;
            let ghost mid = keyv@;
            while j < np
                invariant
                    np == protov@.len(),
                    j <= np,
                    keyv@ == mid + protov@.take(j as int),
                decreases np - j,
            {
                keyv.push(protov[j]);
                proof {
                    assert(protov@.take(j + 1) =~= protov@.take(j as int).push(
                        protov@[j as int],
                    ));
                    assert(keyv@ =~= mid + protov@.take(j + 1));
                }
                j = j + 1;
            }
            proof {
                assert(protov@.take(np as int) =~= protov@);
            }
            let host_port: u16 = match pm.host_port {
                Some(h) => h,
                None => pm.container_port,
            };
            let ps = PortSpec { key: chars_to_string(&keyv), host_port };
            proof {
                assert(ps@.key =~= dec_rep(pmv[k as int].container_port as nat) + seq!['/']
                    + pmv[k as int].protocol);
            }
            port_specs.push(ps);
            proof {
                assert(port_specs@.map_values(|p: PortSpec| p@) =~= psv.push(
                    spec_plan_ports(pmv.take(k + 1)).last(),
                ));
                assert(port_specs@.map_values(|p: PortSpec| p@) =~= spec_plan_ports(
                    pmv.take(k + 1),
                ));
            }
        }
        k = k + 1;
    }
    proof {
        assert(pmv.take(n_ports as int) =~= pmv);
    }
    let restart_policy: Option<RestartPolicyPlan> = match &req.restart_policy {
        None => None,
        Some(s) => {
            let kind = if crate::strutil::str_eq(s.as_str(), "always") {
                RestartPolicyKind::Always
            } else if crate::strutil::str_eq(s.as_str(), "unless-stopped") {
                RestartPolicyKind::UnlessStopped
            } else if crate::strutil::str_eq(s.as_str(), "on-failure") {
                RestartPolicyKind::OnFailure
            } else {
                RestartPolicyKind::Never
            };
            let retries: Option<u64> = if crate::strutil::str_eq(s.as_str(), "on-failure") {
                Some(3)
            } else {
                None
            };
            Some(RestartPolicyPlan { kind, maximum_retry_count: retries })
        },
    };
    CreatePlan { container_name, env, port_specs, restart_policy }
}

// ---------------------------------------------------------------------------
// Image details
// ---------------------------------------------------------------------------

/// The exposed ports an image declares, one per parsable `port/protocol`
/// key, in key order before sorting; keys without a `/` or with an
/// unparsable port are skipped.
pub open spec fn spec_exposed_ports(keys: Seq<Seq<char>>) -> Seq<ContainerPortMappingView>
    decreases keys.len(),
{
    if keys.len() == 0 {
        Seq::empty()
    } else {
        let s = keys.last();
        let k = find_char(s, '/');
        let rest = spec_exposed_ports(keys.drop_last());
        if k < s.len() && spec_parse_u16(s.take(k)) is Some {
            rest.push(
                ContainerPortMappingView {
                    container_port: spec_parse_u16(s.take(k)).unwrap(),
                    host_port: None,
                    protocol: s.skip(k + 1),
                },
            )
        } else {
            rest
        }
    }
}

/// Parses an image's exposed-port keys and sorts them by container port.
pub fn parse_exposed_ports(keys: &Vec<String>) -> (r: Vec<ContainerPortMapping>)
    ensures
        r@.map_values(|p: ContainerPortMapping| p@) == sort_by_le(
            cport_le_fn(),
            spec_exposed_ports(keys@.map_values(|s: String| s@)),
        ),
{
    let ghost kv = keys@.map_values(|s: String| s@);
    let mut out: Vec<ContainerPortMapping> = Vec::new();
    let n: usize = keys.len();
    let mut i: usize = 0;
    proof {
        assert(kv.take(0) =~= Seq::<Seq<char>>::empty());
        assert(out@.map_values(|p: ContainerPortMapping| p@) =~= spec_exposed_ports(kv.take(0)));
    }
    while i < n
        invariant
            n == keys@.len(),
            kv == keys@.map_values(|s: String| s@),
            i <= n,
            out@.map_values(|p: ContainerPortMapping| p@) == spec_exposed_ports(kv.take(i as int)),
        decreases n - i,
    {
        let ghost outv = out@.map_values(|p: ContainerPortMapping| p@);
        proof {
            assert(kv.take(i + 1).drop_last() =~= kv.take(i as int));
            assert(kv.take(i + 1).last() == kv[i as int]);
            assert(kv[i as int] == keys@[i as int]@);
        }
        let v = str_to_chars(keys[i].as_str());
        let nn: usize = v.len();
        let k = find_char_range(&v, 0, nn, '/');
        proof {
            assert(v@.subrange(0, nn as int) =~= kv[i as int]);
        }
        if k < nn {
            let port_part = chars_range_to_string(&v, 0, k);
            let pv = str_to_chars(port_part.as_str());
            proof {
                assert(pv@ =~= kv[i as int].take(k as int));
            }
            match parse_u16_chars(&pv) {
                Some(port) => {
                    let proto = chars_range_to_string(&v, k + 1, nn);
                    proof {
                        assert(v@.subrange(k + 1, nn as int) =~= kv[i as int].skip(k + 1));
                    }
                    let cpm = ContainerPortMapping {
                        container_port: port,
                        host_port: None,
                        protocol: proto,
                    };
                    out.push(cpm);
                    proof {
                        assert(out@.map_values(|p: ContainerPortMapping| p@) =~= outv.push(cpm@));
                        assert(out@.map_values(|p: ContainerPortMapping| p@) =~= spec_exposed_ports(
                            kv.take(i + 1),
                        ));
                    }
                },
                None => {
                },
            }
        }
        i = i + 1;
    }
    proof {
        assert(kv.take(n as int) =~= kv);
    }
    sort_exposed_ports(out)
}

/// The environment entries an image bakes in, one per `KEY=VALUE` line
/// split at the first `=`; lines without `=` are skipped.
pub open spec fn spec_env_entries(lines: Seq<Seq<char>>) -> Seq<EnvironmentVariableView>
    decreases lines.len(),
{
    if lines.len() == 0 {
        Seq::empty()
    } else {
        let s = lines.last();
        let k = find_char(s, '=');
        let rest = spec_env_entries(lines.drop_last());
        if k < s.len() {
            rest.push(EnvironmentVariableView { key: s.take(k), value: s.skip(k + 1) })
        } else {
            rest
        }
    }
}

/// Parses an image's environment lines and sorts them by key.
pub fn parse_env_entries(lines: &Vec<String>) -> (r: Vec<EnvironmentVariable>)
    ensures
        r@.map_values(|e: EnvironmentVariable| e@) == sort_by_le(
            env_le_fn(),
            spec_env_entries(lines@.map_values(|s: String| s@)),
        ),
{
    let ghost lv = lines@.map_values(|s: String| s@);
    let mut out: Vec<EnvironmentVariable> = Vec::new();
    let n: usize = lines.len();
    let mut i: usize = 0;
    proof {
        assert(lv.take(0) =~= Seq::<Seq<char>>::empty());
        assert(out@.map_values(|e: EnvironmentVariable| e@) =~= spec_env_entries(lv.take(0)));
    }
    while i < n
        invariant
            n == lines@.len(),
            lv == lines@.map_values(|s: String| s@),
            i <= n,
            out@.map_values(|e: EnvironmentVariable| e@) == spec_env_entries(lv.take(i as int)),
        decreases n - i,
    {
        let ghost outv = out@.map_values(|e: EnvironmentVariable| e@);
        proof {
            assert(lv.take(i + 1).drop_last() =~= lv.take(i as int));
            assert(lv.take(i + 1).last() == lv[i as int]);
            assert(lv[i as int] == lines@[i as int]@);
        }
        let v = str_to_chars(lines[i].as_str());
        let nn: usize = v.len();
        let k = find_char_range(&v, 0, nn, '=');
        proof {
            assert(v@.subrange(0, nn as int) =~= lv[i as int]);
        }
        if k < nn {
            let key = chars_range_to_string(&v, 0, k);
            let value = chars_range_to_string(&v, k + 1, nn);
            proof {
                assert(v@.subrange(0, k as int) =~= lv[i as int].take(k as int));
                assert(v@.subrange(k + 1, nn as int) =~= lv[i as int].skip(k + 1));
            }
            let ev = EnvironmentVariable { key, value };
            out.push(ev);
            proof {
                assert(out@.map_values(|e: EnvironmentVariable| e@) =~= outv.push(ev@));
                assert(out@.map_values(|e: EnvironmentVariable| e@) =~= spec_env_entries(
                    lv.take(i + 1),
                ));
            }
        }
        i = i + 1;
    }
    proof {
        assert(lv.take(n as int) =~= lv);
    }
    sort_env_vars(out)
}

// ---------------------------------------------------------------------------
// Log lines
// ---------------------------------------------------------------------------

/// Recent log output, cleaned for display: each line trimmed, empty
/// lines dropped, order kept.
pub open spec fn spec_clean_log_lines(lines: Seq<Seq<char>>) -> Seq<Seq<char>>
    decreases lines.len(),
{
    if lines.len() == 0 {
        Seq::empty()
    } else {
        let t = spec_trim(lines.last());
        let rest = spec_clean_log_lines(lines.drop_last());
        if t.len() > 0 {
            rest.push(t)
        } else {
            rest
        }
    }
}

/// Trims each log line and drops the empty ones, keeping order.
pub fn clean_log_lines(lines: &Vec<String>) -> (r: Vec<String>)
    ensures
        r@.map_values(|s: String| s@) == spec_clean_log_lines(
            lines@.map_values(|s: String| s@),
        ),
{
    let ghost lv = lines@.map_values(|s: String| s@);
    let mut out: Vec<String> = Vec::new();
    let n: usize = lines.len();
    let mut i: usize = 0;
    proof {
        assert(lv.take(0) =~= Seq::<Seq<char>>::empty());
        assert(out@.map_values(|s: String| s@) =~= spec_clean_log_lines(lv.take(0)));
    }
    while i < n
        invariant
            n == lines@.len(),
            lv == lines@.map_values(|s: String| s@),
            i <= n,
            out@.map_values(|s: String| s@) == spec_clean_log_lines(lv.take(i as int)),
        decreases n - i,
    {
        let ghost outv = out@.map_values(|s: String| s@);
        proof {
            assert(lv.take(i + 1).drop_last() =~= lv.take(i as int));
            assert(lv.take(i + 1).last() == lv[i as int]);
            assert(lv[i as int] == lines@[i as int]@);
        }
        let v = str_to_chars(lines[i].as_str());
        let nn: usize = v.len();
        let (a, b) = trim_range(&v, 0, nn);
        proof {
            assert(v@.subrange(0, nn as int) =~= lv[i as int]);
        }
        if b > a {
            let t = chars_range_to_string(&v, a, b);
            out.push(t);
            proof {
                assert(out@.map_values(|s: String| s@) =~= outv.push(spec_trim(lv[i as int])));
                assert(out@.map_values(|s: String| s@) =~= spec_clean_log_lines(lv.take(i + 1)));
            }
        }
        i = i + 1;
    }
    proof {
        assert(lv.take(n as int) =~= lv);
    }
    out
}

} // verus!
