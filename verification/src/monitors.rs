//! Windows monitor lookup: which monitor shows a given display configuration path.
use vstd::prelude::*;

use crate::text::{chars_of, string_of};

verus! {

/// The text of a fixed-size wide-character buffer, without the NUL characters that pad its end.
pub open spec fn trim_nuls(s: Seq<char>) -> Seq<char>
    decreases s.len(),
{
    if s.len() > 0 && s.last() == '\0' {
        trim_nuls(s.drop_last())
    } else {
        s
    }
}

/// Removes the NUL characters at the end of `s`.
pub fn trim_trailing_nuls(s: &str) -> (r: String)
    ensures
        r@ == trim_nuls(s@),
{
    let v = chars_of(s);
    let mut end = v.len();
    assert(v@.take(end as int) == v@);
    while end > 0 && v[end - 1] == '\0'
        invariant
            end <= v@.len(),
            trim_nuls(v@.take(end as int)) == trim_nuls(v@),
        decreases end,
    {
        assert(v@.take(end as int).drop_last() == v@.take(end - 1));
        end = end - 1;
    }
    let mut out: Vec<char> = Vec::new();
    for k in 0..end
        invariant
            end <= v@.len(),
            out@ == v@.take(k as int),
    {
        out.push(v[k]);
        assert(v@.take(k + 1) == v@.take(k as int).push(v@[k as int]));
    }
    string_of(&out)
}

/// The names the display configuration API reports for a path's target.
#[derive(Debug, Clone, PartialEq, Eq)]
pub struct TargetNames {
    /// The monitor's friendly device name, as read.
    pub friendly_device_name: String,
    /// The monitor's device path, as read.
    pub device_path: String,
}

/// What the display configuration API reports for one path.
#[derive(Debug, Clone, PartialEq, Eq)]
pub struct PathDeviceNames {
    /// The id of the path's source.
    pub source_id: u32,
    /// The names of the path's target, when they could be read.
    pub target: Option<TargetNames>,
    /// The GDI device name of the path's source, when it could be read.
    pub gdi_device_name: Option<String>,
}

/// A monitor reported by monitor enumeration.
#[derive(Debug, Clone, PartialEq, Eq)]
pub struct MonitorInfo {
    /// The monitor's device name, as read.
    pub device_name: String,
}

/// No monitor shows the path.
#[derive(Debug, Clone, Copy, PartialEq, Eq)]
pub enum MonitorLookupError {
    NotFound,
}

impl MonitorLookupError {
    /// The human-readable message of this error.
    pub fn to_string(&self) -> (r: String)
        ensures
            r@ == "HMonitor not found for the given path and source id"@,
    {
        "HMonitor not found for the given path and source id".to_owned()
    }
}

/// `p` is a path from source `source_id` to the monitor at `device_path`, under either of the
/// names its target reports.
pub open spec fn path_leads_to(p: PathDeviceNames, device_path: Seq<char>, source_id: u32) -> bool {
    &&& p.source_id == source_id
    &&& p.target matches Some(t) && (device_path == trim_nuls(t.friendly_device_name@)
        || device_path == trim_nuls(t.device_path@))
}

/// The first monitor whose device name is `gdi_name`.
pub open spec fn first_monitor_named(monitors: Seq<MonitorInfo>, gdi_name: Seq<char>) -> Option<int>
    decreases monitors.len(),
{
    if monitors.len() == 0 {
        None
    } else if trim_nuls(monitors[0].device_name@) == gdi_name {
        Some(0)
    } else {
        match first_monitor_named(monitors.drop_first(), gdi_name) {
            Some(i) => Some(i + 1),
            None => None,
        }
    }
}

/// The monitor that shows the display at `device_path` from source `source_id`: for the paths
/// in order that lead there and whose source has a GDI device name, the first monitor with
/// that name.
pub open spec fn monitor_for_path(
    paths: Seq<PathDeviceNames>,
    monitors: Seq<MonitorInfo>,
    device_path: Seq<char>,
    source_id: u32,
) -> Option<int>
    decreases paths.len(),
{
    if paths.len() == 0 {
        None
    } else {
        let p = paths[0];
        let here = if path_leads_to(p, device_path, source_id) {
            match p.gdi_device_name {
                Some(g) => first_monitor_named(monitors, trim_nuls(g@)),
                None => None,
            }
        } else {
            None
        };
        match here {
            Some(i) => Some(i),
            None => monitor_for_path(paths.drop_first(), monitors, device_path, source_id),
        }
    }
}

proof fn lemma_first_monitor_named_in_range(monitors: Seq<MonitorInfo>, gdi_name: Seq<char>)
    ensures
        first_monitor_named(monitors, gdi_name) matches Some(i) ==> 0 <= i < monitors.len(),
    decreases monitors.len(),
{
    if monitors.len() > 0 {
        lemma_first_monitor_named_in_range(monitors.drop_first(), gdi_name);
    }
}

fn find_monitor(monitors: &Vec<MonitorInfo>, gdi_name: &String) -> (r: Option<usize>)
    ensures
        match first_monitor_named(monitors@, gdi_name@) {
            Some(i) => r == Some(i as usize),
            None => r is None,
        },
{
    let n = monitors.len();
    assert(monitors@.skip(0) == monitors@);
    for k in 0..n
        invariant
            n == monitors@.len(),
            first_monitor_named(monitors@, gdi_name@) == match first_monitor_named(
                monitors@.skip(k as int),
                gdi_name@,
            ) {
                Some(i) => Some(i + k),
                None => None,
            },
    {
        let ghost rest = monitors@.skip(k as int);
        assert(rest[0] == monitors@[k as int]);
        assert(rest.drop_first() == monitors@.skip(k + 1));
        let name = trim_trailing_nuls(monitors[k].device_name.as_str());
        if name == *gdi_name {
            return Some(k);
        }
    }
    assert(monitors@.skip(n as int).len() == 0);
    None
}

/// Finds the monitor that shows the display at `device_path` from source `source_id`, given
/// the names the display configuration API reports for each path and the monitors that
/// enumeration reports: the position of the monitor in `monitors`.
pub fn get_hmonitor_for_path(
    device_path: &str,
    source_id: u32,
    paths: &Vec<PathDeviceNames>,
    monitors: &Vec<MonitorInfo>,
) -> (r: Result<usize, MonitorLookupError>)
    ensures
        match monitor_for_path(paths@, monitors@, device_path@, source_id) {
            Some(i) => r == Ok::<usize, MonitorLookupError>(i as usize) && i < monitors@.len(),
            None => r == Err::<usize, MonitorLookupError>(MonitorLookupError::NotFound),
        },
{
    let n = paths.len();
    let wanted = device_path.to_owned();
    assert(paths@.skip(0) == paths@);
    for k in 0..n
        invariant
            n == paths@.len(),
            wanted@ == device_path@,
            monitor_for_path(paths@, monitors@, device_path@, source_id) == monitor_for_path(
                paths@.skip(k as int),
                monitors@,
                device_path@,
                source_id,
            ),
    {
        let ghost rest = paths@.skip(k as int);
        assert(rest[0] == paths@[k as int]);
        assert(rest.drop_first() == paths@.skip(k + 1));
        let p = &paths[k];
        if p.source_id == source_id {
            match &p.target {
                Some(t) => {
                    let friendly = trim_trailing_nuls(t.friendly_device_name.as_str());
                    let api_path = trim_trailing_nuls(t.device_path.as_str());
                    if wanted == friendly || wanted == api_path {
                        match &p.gdi_device_name {
                            Some(g) => {
                                let gdi = trim_trailing_nuls(g.as_str());
                                proof {
                                    lemma_first_monitor_named_in_range(monitors@, gdi@);
                                }
                                match find_monitor(monitors, &gdi) {
                                    Some(i) => {
                                        return Ok(i);
                                    },
                                    None => {},
                                }
                            },
                            None => {},
                        }
                    }
                },
                None => {},
            }
        }
    }
    assert(paths@.skip(n as int).len() == 0);
    Err(MonitorLookupError::NotFound)
}

/// `p` leads from source `source_id` to the monitor at `device_path`, and its source's GDI
/// device is named `name`.
pub open spec fn path_shows(p: PathDeviceNames, device_path: Seq<char>, source_id: u32, name: Seq<char>) -> bool {
    &&& path_leads_to(p, device_path, source_id)
    &&& p.gdi_device_name matches Some(g)
    &&& trim_nuls(g@) == name
}

proof fn lemma_first_monitor_named_is_named(monitors: Seq<MonitorInfo>, gdi_name: Seq<char>)
    ensures
        first_monitor_named(monitors, gdi_name) matches Some(i) ==> 0 <= i < monitors.len()
            && trim_nuls(monitors[i].device_name@) == gdi_name,
    decreases monitors.len(),
{
    if monitors.len() > 0 {
        lemma_first_monitor_named_is_named(monitors.drop_first(), gdi_name);
    }
}

/// The monitor found for a path is named after the GDI device of a path that leads from the
/// given source to the given device.
pub proof fn law_found_monitor_shows_path(
    paths: Seq<PathDeviceNames>,
    monitors: Seq<MonitorInfo>,
    device_path: Seq<char>,
    source_id: u32,
)
    ensures
        monitor_for_path(paths, monitors, device_path, source_id) matches Some(i) ==> 0 <= i
            < monitors.len() && exists|k: int|
            0 <= k < paths.len() && path_shows(
                #[trigger] paths[k],
                device_path,
                source_id,
                trim_nuls(monitors[i].device_name@),
            ),
    decreases paths.len(),
{
    if paths.len() > 0 {
        let p = paths[0];
        law_found_monitor_shows_path(paths.drop_first(), monitors, device_path, source_id);
        match p.gdi_device_name {
            Some(g) => lemma_first_monitor_named_is_named(monitors, trim_nuls(g@)),
            None => {},
        }
        match monitor_for_path(paths, monitors, device_path, source_id) {
            Some(i) => {
                let here = if path_leads_to(p, device_path, source_id) {
                    match p.gdi_device_name {
                        Some(g) => first_monitor_named(monitors, trim_nuls(g@)),
                        None => None,
                    }
                } else {
                    None
                };
                if here is Some {
                    assert(paths[0] == p);
                } else {
                    let k = choose|k: int|
                        0 <= k < paths.drop_first().len() && path_shows(
                            #[trigger] paths.drop_first()[k],
                            device_path,
                            source_id,
                            trim_nuls(monitors[i].device_name@),
                        );
                    assert(paths[k + 1] == paths.drop_first()[k]);
                }
            },
            None => {},
        }
    }
}

} // verus!
