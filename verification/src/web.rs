//! The pure pieces behind the HTTP layer: the request parameter shapes,
//! the status-class decision for display, and the normalization of a
//! creation form into a request. Routing, templating and transport live
//! outside this library.

use vstd::prelude::*;

use crate::models::EnvironmentVariable;
use crate::models::ContainerPortMapping;
use crate::models::CreateContainerRequest;
use crate::strutil::spec_trim;
use crate::strutil::str_to_chars;
use crate::strutil::trim_range;

verus! {

/// The quick-start form: just an image reference.
pub struct StartImageParams {
    pub image_name: String,
}

/// The configure-and-start form. Environment and port payloads arrive
/// as encoded text and are decoded before this library sees them.
pub struct EnhancedStartImageParams {
    pub image_name: String,
    pub container_name: Option<String>,
    pub environment_variables: Option<String>,
    pub port_mappings: Option<String>,
    pub restart_policy: Option<String>,
}

/// The health probe's answer.
pub struct HealthResponse {
    pub status: String,
    pub version: String,
    pub docker_available: bool,
    pub timestamp: String,
}

/// The client-visible configuration.
pub struct ConfigResponse {
    pub metrics_interval_seconds: u64,
    pub metrics_history_limit: usize,
}

/// The query of the log page: how many recent lines to show.
pub struct LogQuery {
    pub tail: Option<String>,
}

// ---------------------------------------------------------------------------
// Status classification
// ---------------------------------------------------------------------------

/// The scalar value of a character with ASCII letters lowered. Engine
/// state strings are ASCII, so this matches a full case fold on them.
pub open spec fn lower_u32(c: char) -> u32 {
    if 65 <= (c as u32) && (c as u32) <= 90 {
        ((c as u32) + 32) as u32
    } else {
        c as u32
    }
}

pub open spec fn matches_at_ci(s: Seq<char>, p: Seq<char>, i: int) -> bool {
    0 <= i && i + p.len() <= s.len() && forall|t: int|
        0 <= t < p.len() ==> lower_u32(s[i + t]) == lower_u32(#[trigger] p[t])
}

/// Whether `p` occurs in `s`, compared with ASCII letters folded.
pub open spec fn spec_contains_ci(s: Seq<char>, p: Seq<char>) -> bool {
    exists|i: int| matches_at_ci(s, p, i)
}

fn lower_u32_exec(c: char) -> (r: u32)
    ensures
        r == lower_u32(c),
{
    let u: u32 = c as u32;
    if 65 <= u && u <= 90 {
        u + 32
    } else {
        u
    }
}

/// Case-folded substring search.
pub fn contains_ci(s: &str, p: &str) -> (r: bool)
    ensures
        r == spec_contains_ci(s@, p@),
{
    let sv = str_to_chars(s);
    let pv = str_to_chars(p);
    let ns: usize = sv.len();
    let np: usize = pv.len();
    if np > ns {
        return false;
    }
    let mut i: usize = 0;
    while i <= ns - np
        invariant
            sv@ == s@,
            pv@ == p@,
            ns == s@.len(),
            np == p@.len(),
            np <= ns,
            i <= ns - np + 1,
            forall|k: int| 0 <= k < i ==> !matches_at_ci(s@, p@, k),
        decreases ns - np - i + 1,
    {
        let mut j: usize = 0;
        let mut ok: bool = true;
        while j < np
            invariant
                sv@ == s@,
                pv@ == p@,
                ns == s@.len(),
                np == p@.len(),
                np <= ns,
                i <= ns - np,
                j <= np,
                ok == (forall|t: int| 0 <= t < j ==> lower_u32(s@[i + t]) == lower_u32(p@[t])),
            decreases np - j,
        {
            let a = lower_u32_exec(sv[i + j]);
            let b = lower_u32_exec(pv[j]);
            if a != b {
                ok = false;
                j = np;
            } else {
                j = j + 1;
            }
        }
        if ok {
            proof {
                assert(matches_at_ci(s@, p@, i as int));
            }
            return true;
        }
        i = i + 1;
    }
    proof {
        assert forall|k: int| !matches_at_ci(s@, p@, k) by {
            if matches_at_ci(s@, p@, k) {
                assert(0 <= k <= ns - np);
            }
        }
    }
    false
}

/// The display class of an engine state string, decided by case-folded
/// keyword search.
pub open spec fn spec_status_class(s: Seq<char>) -> Seq<char> {
    if spec_contains_ci(s, "running"@) || spec_contains_ci(s, "up"@) {
        "status-running"@
    } else if spec_contains_ci(s, "exited"@) || spec_contains_ci(s, "stopped"@) || spec_contains_ci(
        s,
        "created"@,
    ) {
        "status-exited"@
    } else {
        "status-other"@
    }
}

/// Maps an engine state string to its display class.
pub fn get_status_class(status: &str) -> (r: &'static str)
    ensures
        r@ == spec_status_class(status@),
{
    if contains_ci(status, "running") || contains_ci(status, "up") {
        "status-running"
    } else if contains_ci(status, "exited") || contains_ci(status, "stopped") || contains_ci(
        status,
        "created",
    ) {
        "status-exited"
    } else {
        "status-other"
    }
}

// ---------------------------------------------------------------------------
// Creation form normalization
// ---------------------------------------------------------------------------

/// A text field that is empty after trimming counts as not supplied.
pub open spec fn spec_nonblank(o: Option<Seq<char>>) -> Option<Seq<char>> {
    match o {
        Some(s) => if spec_trim(s).len() > 0 {
            Some(s)
        } else {
            None
        },
        None => None,
    }
}

fn nonblank(o: Option<String>) -> (r: Option<String>)
    ensures
        match (r, spec_nonblank(match o {
            Some(s) => Some(s@),
            None => None,
        })) {
            (Some(x), Some(y)) => x@ == y,
            (None, None) => true,
            _ => false,
        },
{
    match o {
        Some(s) => {
            let v = str_to_chars(s.as_str());
            let n: usize = v.len();
            let (a, b) = trim_range(&v, 0, n);
            proof {
                assert(v@.subrange(0, n as int) =~= s@);
            }
            if b > a {
                Some(s)
            } else {
                None
            }
        },
        None => None,
    }
}

/// Builds a creation request from decoded form fields: a blank container
/// name or restart policy counts as not supplied.
pub fn normalize_create_request(
    image_name: String,
    container_name: Option<String>,
    environment_variables: Vec<EnvironmentVariable>,
    port_mappings: Vec<ContainerPortMapping>,
    restart_policy: Option<String>,
) -> (r: CreateContainerRequest)
    ensures
        r.image_name@ == image_name@,
        match (r.container_name, spec_nonblank(match container_name {
            Some(s) => Some(s@),
            None => None,
        })) {
            (Some(x), Some(y)) => x@ == y,
            (None, None) => true,
            _ => false,
        },
        r.environment_variables@.map_values(|e: EnvironmentVariable| e@)
            == environment_variables@.map_values(|e: EnvironmentVariable| e@),
        r.port_mappings@.map_values(|p: ContainerPortMapping| p@) == port_mappings@.map_values(
            |p: ContainerPortMapping| p@,
        ),
        match (r.restart_policy, spec_nonblank(match restart_policy {
            Some(s) => Some(s@),
            None => None,
        })) {
            (Some(x), Some(y)) => x@ == y,
            (None, None) => true,
            _ => false,
        },
{
    CreateContainerRequest {
        image_name,
        container_name: nonblank(container_name),
        environment_variables,
        port_mappings,
        restart_policy: nonblank(restart_policy),
    }
}

} // verus!
