//! The Windows tunnel driver's client side, as plain values: the adapter and
//! the overlapped file it is read and written through (handles as their
//! integer values), the driver's control code, and the reading of the
//! NUL-separated UTF-16 lists the device APIs return.

use vstd::prelude::*;
use vstd::string::*;
use crate::protobuf::string_eq;
use std::sync::Arc;

verus! {

/// The control code of a device request: device type, access, function and
/// method packed as Windows' `CTL_CODE` packs them.
pub open spec fn ctl_code_spec(device_type: u32, function: u32, method: u32, access: u32) -> u32 {
    (device_type << 16u32) | (access << 14u32) | (function << 2u32) | method
}

/// `CTL_CODE(device_type, function, method, access)`.
pub fn ctl_code(device_type: u32, function: u32, method: u32, access: u32) -> (r: u32)
    ensures
        r == ctl_code_spec(device_type, function, method, access),
{
    (device_type << 16u32) | (access << 14u32) | (function << 2u32) | method
}

/// The request that opens the adapter: `CTL_CODE(0x22, 0x801, 0, 0)`.
pub const FOR_TUN_IOCTL_OPEN_ADAPTER: u32 = 0x222004;

/// The interface class of the ForTun adapter.
pub const FOR_TUN_INTERFACE_GUID: &'static str = "f579d929-6c40-4e5a-8532-180199a4e321";

/// The hardware id of the ForTun adapter.
pub const FOR_TUN_HWID: &'static str = "ForTun";

/// The open-adapter request is the control code of its parts.
pub proof fn lemma_open_adapter_code()
    ensures
        FOR_TUN_IOCTL_OPEN_ADAPTER == ctl_code_spec(0x22, 0x801, 0, 0),
{
    assert((0x22u32 << 16u32) | (0u32 << 14u32) | (0x801u32 << 2u32) | 0u32 == 0x222004u32)
        by (bit_vector);
}

/// A software device created for the adapter.
pub struct AdapterDevice {
    /// The software-device handle.
    pub handler: isize,
    pub instance_id: String,
    pub interface_id: String,
}

impl AdapterDevice {
    pub fn new(handler: isize, instance_id: String, interface_id: String) -> (r: AdapterDevice)
        ensures
            r.handler == handler,
            r.instance_id@ == instance_id@,
            r.interface_id@ == interface_id@,
    {
        AdapterDevice { handler, instance_id, interface_id }
    }
}

/// The adapter's file, opened for overlapped reads and writes.
pub struct WinOverlappedFile {
    /// The file handle.
    pub file: isize,
}

impl WinOverlappedFile {
    /// Wraps an open file handle; this never fails.
    pub fn new(file: isize) -> (r: Result<WinOverlappedFile, std::io::Error>)
        ensures
            r matches Ok(f) && f.file == file,
    {
        Ok(WinOverlappedFile { file })
    }
}

/// The state of one overlapped request (`OVERLAPPED`): status, byte count,
/// file offset and the event signalled on completion.
pub struct Overlapped {
    pub internal: usize,
    pub internal_high: usize,
    pub offset: u32,
    pub offset_high: u32,
    pub h_event: isize,
}

impl Default for Overlapped {
    /// All zero, as `OVERLAPPED::default()`.
    fn default() -> (r: Overlapped)
        ensures
            r.internal == 0 && r.internal_high == 0 && r.offset == 0 && r.offset_high == 0
                && r.h_event == 0,
    {
        Overlapped { internal: 0, internal_high: 0, offset: 0, offset_high: 0, h_event: 0 }
    }
}

/// An overlapped request on its own.
pub struct OverlappedWrap {
    pub overlapped: Overlapped,
}

/// The reading end of the adapter: the shared file and its own request.
pub struct ReadFile {
    pub file: Arc<WinOverlappedFile>,
    pub overlapped: Overlapped,
}

/// The writing end of the adapter: the shared file and its own request.
pub struct WriteFile {
    pub file: Arc<WinOverlappedFile>,
    pub overlapped: Overlapped,
}

/// The text `String::from_utf16` makes of UTF-16 code units; `None` where
/// they are not valid UTF-16.
pub uninterp spec fn utf16_decoded(units: Seq<u16>) -> Option<Seq<char>>;

/// Decodes UTF-16 code units (`String::from_utf16`); `None` where they are
/// not valid UTF-16.
#[verifier::external_body]
fn utf16_string(units: &[u16]) -> (r: Option<String>)
    ensures
        match r {
            Some(s) => utf16_decoded(units@) == Some(s@),
            None => utf16_decoded(units@) is None,
        },
{
    String::from_utf16(units).ok()
}

/// The position of the first NUL at or after `i` (the length where there is
/// none).
pub open spec fn nul_from(buf: Seq<u16>, i: int) -> int
    decreases buf.len() - i,
{
    if i < 0 || i >= buf.len() || buf[i] == 0 {
        i
    } else {
        nul_from(buf, i + 1)
    }
}

/// The strings of a NUL-separated list from position `i`: each runs to its
/// NUL; the list ends at an empty string, or where fewer than two units are
/// left after a NUL.
pub open spec fn segments_from(buf: Seq<u16>, i: int) -> Seq<Seq<u16>>
    decreases buf.len() - i,
{
    if i < 0 || i >= buf.len() || buf[i] == 0 {
        Seq::empty()
    } else {
        let end = nul_from(buf, i);
        let rest = if end + 1 >= buf.len() - 1 || end + 1 <= i {
            Seq::<Seq<u16>>::empty()
        } else {
            segments_from(buf, end + 1)
        };
        seq![buf.subrange(i, end)] + rest
    }
}

proof fn lemma_nul_from(buf: Seq<u16>, i: int)
    requires
        0 <= i < buf.len(),
        buf.last() == 0,
    ensures
        i <= nul_from(buf, i) < buf.len(),
        buf[nul_from(buf, i)] == 0,
        forall|k: int| i <= k < nul_from(buf, i) ==> buf[k] != 0,
    decreases buf.len() - i,
{
    if buf[i] != 0 {
        lemma_nul_from(buf, i + 1);
    }
}

/// Every string of the list decodes.
pub open spec fn all_decode(segs: Seq<Seq<u16>>) -> bool {
    forall|k: int| 0 <= k < segs.len() ==> (#[trigger] utf16_decoded(segs[k])) is Some
}

/// The strings of a list whose strings all decode.
pub open spec fn decoded_list(segs: Seq<Seq<u16>>) -> Seq<Seq<char>> {
    segs.map_values(|u: Seq<u16>| utf16_decoded(u)->0)
}

/// Scans the list from `index`: the decoded strings, or `None` at the first
/// one that does not decode.
fn scan_list(buf: &Vec<u16>) -> (r: Option<Vec<String>>)
    requires
        buf@.len() > 0,
        buf@.last() == 0,
    ensures
        match r {
            Some(v) => all_decode(segments_from(buf@, 0)) && v@.map_values(|s: String| s@)
                == decoded_list(segments_from(buf@, 0)),
            None => !all_decode(segments_from(buf@, 0)),
        },
{
    let mut index: usize = 0;
    let mut result: Vec<String> = Vec::new();
    let ghost mut done: Seq<Seq<u16>> = Seq::empty();
    while index < buf.len() && buf[index] != 0
        invariant
            buf@.len() > 0,
            buf@.last() == 0,
            index <= buf@.len(),
            done + segments_from(buf@, index as int) == segments_from(buf@, 0),
            all_decode(done),
            result@.map_values(|s: String| s@) == decoded_list(done),
        decreases buf.len() - index,
    {
        proof {
            lemma_nul_from(buf@, index as int);
        }
        let mut end: usize = index;
        while buf[end] != 0
            invariant
                index <= end <= nul_from(buf@, index as int) < buf@.len(),
                buf@[nul_from(buf@, index as int)] == 0,
                forall|k: int| index <= k < nul_from(buf@, index as int) ==> buf@[k] != 0,
            decreases buf.len() - end,
        {
            end = end + 1;
        }
        let seg = slice_of(buf, index, end);
        let ghost segs_here = segments_from(buf@, index as int);
        match utf16_string(seg.as_slice()) {
            Some(s) => {
                let ghost old_result = result@;
                result.push(s);
                proof {
                    let rest = if end + 1 >= buf@.len() - 1 || end + 1 <= index {
                        Seq::<Seq<u16>>::empty()
                    } else {
                        segments_from(buf@, end + 1)
                    };
                    assert(segs_here == seq![buf@.subrange(index as int, end as int)] + rest);
                    let done2 = done.push(buf@.subrange(index as int, end as int));
                    assert(done2 + rest =~= done + segs_here);
                    assert forall|k: int| 0 <= k < done2.len() implies (#[trigger] utf16_decoded(done2[k])) is Some by {
                        if k < done.len() {
                            assert(done2[k] == done[k]);
                        }
                    }
                    assert(done2[done.len() as int] == seg@);
                    assert(old_result.map_values(|s: String| s@) == decoded_list(done));
                    assert(old_result.map_values(|s: String| s@).len() == old_result.len());
                    assert(decoded_list(done).len() == done.len());
                    assert(result@ == old_result.push(s));
                    assert forall|k: int| 0 <= k < done2.len() implies result@.map_values(|s: String| s@)[k]
                        == decoded_list(done2)[k] by {
                        if k < done.len() {
                            assert(old_result.map_values(|s: String| s@)[k] == decoded_list(done)[k]);
                            assert(result@[k] == old_result[k]);
                        }
                    }
                    assert(result@.map_values(|s: String| s@) =~= decoded_list(done2));
                    done = done2;
                    if end + 1 >= buf@.len() - 1 {
                        assert(done + Seq::<Seq<u16>>::empty() =~= done);
                    }
                }
                if end + 1 >= buf.len() - 1 {
                    proof {
                        assert(done =~= segments_from(buf@, 0));
                    }
                    return Some(result);
                }
                index = end + 1;
            },
            None => {
                proof {
                    let bad = buf@.subrange(index as int, end as int);
                    assert(segs_here[0] == bad);
                    assert(segments_from(buf@, 0)[done.len() as int] == bad);
                }
                return None;
            },
        }
    }
    proof {
        assert(segments_from(buf@, index as int) =~= Seq::<Seq<u16>>::empty());
        assert(done + Seq::<Seq<u16>>::empty() =~= done);
    }
    Some(result)
}

/// The units of `buf` from `start` up to `end`.
fn slice_of(buf: &Vec<u16>, start: usize, end: usize) -> (r: Vec<u16>)
    requires
        start <= end <= buf@.len(),
    ensures
        r@ == buf@.subrange(start as int, end as int),
{
    let mut r: Vec<u16> = Vec::new();
    let mut k: usize = start;
    while k < end
        invariant
            start <= k <= end <= buf@.len(),
            r@ == buf@.subrange(start as int, k as int),
        decreases end - k,
    {
        r.push(buf[k]);
        k = k + 1;
        assert(r@ =~= buf@.subrange(start as int, k as int));
    }
    r
}

/// The strings of a NUL-separated list of UTF-16 strings, as the device
/// APIs return them (the buffer ends with a NUL). A string that does not
/// decode is a broken list, which `requires` leaves out (see
/// `try_get_pcwstr_list`).
pub fn get_pcwstr_list(buf: Vec<u16>) -> (r: Vec<String>)
    requires
        buf@.len() > 0,
        buf@.last() == 0,
        all_decode(segments_from(buf@, 0)),
    ensures
        r@.map_values(|s: String| s@) == decoded_list(segments_from(buf@, 0)),
{
    match scan_list(&buf) {
        Some(v) => v,
        None => Vec::new(),
    }
}

/// `get_pcwstr_list`, with the decoding checked: `None` exactly where some
/// string of the list does not decode.
pub fn try_get_pcwstr_list(buf: Vec<u16>) -> (r: Option<Vec<String>>)
    requires
        buf@.len() > 0,
        buf@.last() == 0,
    ensures
        match r {
            Some(v) => all_decode(segments_from(buf@, 0)) && v@.map_values(|s: String| s@)
                == decoded_list(segments_from(buf@, 0)),
            None => !all_decode(segments_from(buf@, 0)),
        },
{
    scan_list(&buf)
}

/// The arguments of `netsh` that give the adapter a static address:
/// `interface ip set address <index> static <address> <netmask>`.
pub open spec fn address_args_spec(index: Seq<char>, address: Seq<char>, netmask: Seq<char>) -> Seq<Seq<char>> {
    seq!["interface"@, "ip"@, "set"@, "address"@, index, "static"@, address, netmask]
}

/// The `netsh` arguments that set the adapter's address.
pub fn address_args(index: &str, address: &str, netmask: &str) -> (r: Vec<String>)
    ensures
        r@.map_values(|a: String| a@) == address_args_spec(index@, address@, netmask@),
{
    let r = vec![
        "interface".to_owned(),
        "ip".to_owned(),
        "set".to_owned(),
        "address".to_owned(),
        index.to_owned(),
        "static".to_owned(),
        address.to_owned(),
        netmask.to_owned(),
    ];
    assert(r@.map_values(|a: String| a@) =~= address_args_spec(index@, address@, netmask@));
    r
}

/// The arguments of `netsh` that set the adapter's MTU:
/// `interface ipv4|ipv6 set subinterface <index> mtu=<mtu>`.
pub open spec fn mtu_args_spec(index: Seq<char>, mtu: u32, is_v4: bool) -> Seq<Seq<char>> {
    seq![
        "interface"@,
        if is_v4 { "ipv4"@ } else { "ipv6"@ },
        "set"@,
        "subinterface"@,
        index,
        "mtu="@ + crate::text::decimal_digits(mtu as nat),
    ]
}

/// The `netsh` arguments that set the adapter's MTU.
pub fn mtu_args(index: &str, mtu: u32, is_v4: bool) -> (r: Vec<String>)
    ensures
        r@.map_values(|a: String| a@) == mtu_args_spec(index@, mtu, is_v4),
{
    let mut m = "mtu=".to_owned();
    let digits = crate::text::decimal_string(mtu as u64);
    m.append(digits.as_str());
    let ip_type = if is_v4 { "ipv4".to_owned() } else { "ipv6".to_owned() };
    let r = vec![
        "interface".to_owned(),
        ip_type,
        "set".to_owned(),
        "subinterface".to_owned(),
        index.to_owned(),
        m,
    ];
    assert(r@.map_values(|a: String| a@) =~= mtu_args_spec(index@, mtu, is_v4));
    r
}

/// The registry key of a device class, where the adapter's index is looked up:
/// `SYSTEM\CurrentControlSet\Control\Class\{<class guid>}`.
pub fn class_key_path(class_guid: &str) -> (r: String)
    ensures
        r@ == "SYSTEM\\CurrentControlSet\\Control\\Class\\{"@ + class_guid@ + "}"@,
{
    let mut r = "SYSTEM\\CurrentControlSet\\Control\\Class\\{".to_owned();
    r.append(class_guid);
    r.append("}");
    r
}

/// The registry key of one device of a class: the class key, a
/// backslash, the device's subkey.
pub fn instance_key_path(class_key: &str, subkey: &str) -> (r: String)
    ensures
        r@ == class_key@ + "\\"@ + subkey@,
{
    let mut r = class_key.to_owned();
    r.append("\\");
    r.append(subkey);
    r
}

/// The name the TCP/IP stack gives the adapter of a network configuration
/// instance: `\DEVICE_TCPIP_<instance id>`.
pub fn tcpip_adapter_name(net_cfg_instance_id: &str) -> (r: String)
    ensures
        r@ == "\\DEVICE_TCPIP_"@ + net_cfg_instance_id@,
{
    let mut r = "\\DEVICE_TCPIP_".to_owned();
    r.append(net_cfg_instance_id);
    r
}

/// Among the devices of the class, read in order as (subkey, device
/// instance id), the first whose instance id is `device_instance_id`: the
/// one whose configuration instance names the adapter.
pub fn matching_instance(devices: &Vec<(String, String)>, device_instance_id: &String) -> (r: Option<usize>)
    ensures
        match r {
            Some(i) => i < devices@.len() && devices@[i as int].1@ == device_instance_id@ && forall|j: int|
                0 <= j < i ==> #[trigger] devices@[j].1@ != device_instance_id@,
            None => forall|j: int| 0 <= j < devices@.len() ==> #[trigger] devices@[j].1@ != device_instance_id@,
        },
{
    let mut i: usize = 0;
    while i < devices.len()
        invariant
            i <= devices@.len(),
            forall|j: int| 0 <= j < i ==> #[trigger] devices@[j].1@ != device_instance_id@,
        decreases devices.len() - i,
    {
        if crate::protobuf::string_eq(&devices[i].1, device_instance_id) {
            return Some(i);
        }
        i = i + 1;
    }
    None
}

/// Why the adapter's network configuration was not found.
pub enum NetIndexError {
    /// The class key (this path) could not be opened.
    CannotOpen(String),
    /// No device of the class has the adapter's instance id.
    NoMatch,
}

impl NetIndexError {
    /// The message the error is reported with.
    pub fn message(&self) -> (r: String)
        ensures
            self matches NetIndexError::CannotOpen(p) ==> r@ == "can not open registry key: "@ + p@,
            self is NoMatch ==> r@ == "could not get device NetCfgInstanceId"@,
    {
        match self {
            NetIndexError::CannotOpen(p) => {
                let mut m = "can not open registry key: ".to_owned();
                m.append(p.as_str());
                m
            },
            NetIndexError::NoMatch => "could not get device NetCfgInstanceId".to_owned(),
        }
    }
}

/// Which device of the adapter class to read the network configuration
/// instance of: `devices` holds, in the order the class key lists them,
/// each device's subkey and instance id, or is `None` where the class key
/// of `class_guid` could not be opened. The first device with the
/// adapter's instance id is the one; none is an error.
pub fn adapter_device(class_guid: &str, devices: Option<&Vec<(String, String)>>, device_instance_id: &String) -> (r: Result<usize, NetIndexError>)
    ensures
        devices is None ==> (r matches Err(NetIndexError::CannotOpen(p)) && p@
            == "SYSTEM\\CurrentControlSet\\Control\\Class\\{"@ + class_guid@ + "}"@),
        devices matches Some(ds) ==> match r {
            Ok(i) => i < ds@.len() && ds@[i as int].1@ == device_instance_id@ && forall|j: int|
                0 <= j < i ==> #[trigger] ds@[j].1@ != device_instance_id@,
            Err(e) => e is NoMatch && forall|j: int| 0 <= j < ds@.len() ==> #[trigger] ds@[j].1@ != device_instance_id@,
        },
{
    match devices {
        None => Err(NetIndexError::CannotOpen(class_key_path(class_guid))),
        Some(ds) => match matching_instance(ds, device_instance_id) {
            Some(i) => Ok(i),
            None => Err(NetIndexError::NoMatch),
        },
    }
}

/// What locating one device of the class gave.
pub enum Located {
    /// The device node, with its hardware id where one could be read.
    Found(Option<String>),
    /// There is no such device node: the device is skipped.
    NoSuchDevnode,
    /// Locating failed with this code.
    Failed(u32),
}

/// The devices of the class with hardware id `hwid`, in order, among the
/// first `n` listed, or the code of the first failure to locate one.
pub open spec fn selected_devices(ids: Seq<String>, located: Seq<Located>, hwid: Seq<char>, n: nat) -> Result<Seq<Seq<char>>, u32>
    decreases n,
{
    if n == 0 {
        Ok(Seq::empty())
    } else {
        match selected_devices(ids, located, hwid, (n - 1) as nat) {
            Err(c) => Err(c),
            Ok(acc) => match located[n - 1] {
                Located::Failed(c) => Err(c),
                Located::NoSuchDevnode => Ok(acc),
                Located::Found(h) => if h matches Some(t) && t@ == hwid {
                    Ok(acc.push(ids[n - 1]@))
                } else {
                    Ok(acc)
                },
            },
        }
    }
}

/// A failure ends the search: it is the result of every longer prefix.
proof fn lemma_selected_failure_stays(ids: Seq<String>, located: Seq<Located>, hwid: Seq<char>, k: nat, m: nat, c: u32)
    requires
        k <= m,
        selected_devices(ids, located, hwid, k) == Err::<Seq<Seq<char>>, u32>(c),
    ensures
        selected_devices(ids, located, hwid, m) == Err::<Seq<Seq<char>>, u32>(c),
    decreases m - k,
{
    if k < m {
        lemma_selected_failure_stays(ids, located, hwid, k, (m - 1) as nat, c);
    }
}

/// The devices of the adapter class whose hardware id is `hwid`: `ids` are
/// the device ids the class lists, `located[i]` what locating `ids[i]`
/// gave. A device with no such node is skipped; another failure ends the
/// search with its code.
pub fn select_devices(ids: &Vec<String>, located: &Vec<Located>, hwid: &str) -> (r: Result<Vec<String>, u32>)
    requires
        ids@.len() == located@.len(),
    ensures
        match r {
            Ok(v) => selected_devices(ids@, located@, hwid@, ids@.len() as nat) == Ok::<Seq<Seq<char>>, u32>(v.deep_view()),
            Err(c) => selected_devices(ids@, located@, hwid@, ids@.len() as nat) == Err::<Seq<Seq<char>>, u32>(c),
        },
{
    let mut result: Vec<String> = Vec::new();
    let mut i: usize = 0;
    let want = hwid.to_owned();
    assert(result.deep_view() =~= Seq::<Seq<char>>::empty());
    while i < ids.len()
        invariant
            i <= ids@.len(),
            ids@.len() == located@.len(),
            want@ == hwid@,
            selected_devices(ids@, located@, hwid@, i as nat) == Ok::<Seq<Seq<char>>, u32>(result.deep_view()),
        decreases ids.len() - i,
    {
        match &located[i] {
            Located::Failed(c) => {
                proof {
                    assert(selected_devices(ids@, located@, hwid@, (i + 1) as nat) == Err::<Seq<Seq<char>>, u32>(*c));
                    lemma_selected_failure_stays(ids@, located@, hwid@, (i + 1) as nat, ids@.len() as nat, *c);
                }
                return Err(*c);
            },
            Located::NoSuchDevnode => {},
            Located::Found(h) => match h {
                Some(t) => {
                    if string_eq(t, &want) {
                        let ghost before = result.deep_view();
                        result.push(ids[i].clone());
                        proof {
                            assert(result.deep_view() =~= before.push(ids@[i as int]@));
                        }
                    }
                },
                None => {},
            },
        }
        i = i + 1;
    }
    Ok(result)
}

/// The `netsh` commands that configure the adapter with interface index
/// `index`, in the order they run: the address first, then the MTU of the
/// address's family. `address_v4` says whether the address parsed as IPv4
/// (`None`: it is not an address); where it is not one, only the first
/// command runs and the configuration fails after it.
pub struct NetConfigPlan {
    pub commands: Vec<Vec<String>>,
    pub address_ok: bool,
}

/// The plan above.
pub fn net_config_plan(index: u32, address: &str, netmask: &str, mtu: u32, address_v4: Option<bool>) -> (r: NetConfigPlan)
    ensures
        r.address_ok == address_v4 is Some,
        r.commands@.len() == if address_v4 is Some { 2int } else { 1int },
        r.commands@[0]@.map_values(|a: String| a@) == address_args_spec(
            crate::text::decimal_digits(index as nat),
            address@,
            netmask@,
        ),
        address_v4 matches Some(v) ==> r.commands@[1]@.map_values(|a: String| a@) == mtu_args_spec(
            crate::text::decimal_digits(index as nat),
            mtu,
            v,
        ),
{
    let index_text = crate::text::decimal_string(index as u64);
    let mut commands: Vec<Vec<String>> = Vec::new();
    commands.push(address_args(index_text.as_str(), address, netmask));
    match address_v4 {
        Some(v4) => {
            commands.push(mtu_args(index_text.as_str(), mtu, v4));
            NetConfigPlan { commands, address_ok: true }
        },
        None => NetConfigPlan { commands, address_ok: false },
    }
}

} // verus!
