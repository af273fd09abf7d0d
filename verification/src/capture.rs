//! The decisions of the passive capture: which device, what to report, and when.
use crate::flow::{segment_effect, sweeps, ticked, ConnTable, Table};
use crate::net::{frame_segment, parse_frame, payload_is_bounded};
use crate::output::{emit_status, emitted, emitted_in_turn, emitted_nothing, Event, Output};
use crate::state::{Ledger, Metrics};
use crate::text::{dec, join, join_next, push_dec, push_int, same_text};
use crate::wire::opt_text;
use vstd::prelude::*;

verus! {

/// Options for a passive capture.
#[derive(Clone, Debug)]
pub struct PcapOpts {
    /// PostgreSQL TCP port to monitor.
    pub port: u16,
    /// Capture interface; `None` means the loopback interface.
    pub interface: Option<String>,
    /// Disable promiscuous mode.
    pub no_promisc: bool,
    /// Maximum bytes captured per packet.
    pub snaplen: i32,
}

/// A capture device, as far as the choice of one looks at it.
#[derive(Clone, Debug)]
pub struct DeviceInfo {
    pub name: String,
    pub loopback: bool,
}

/// Which device to capture on.
#[derive(Clone, Debug)]
pub enum DeviceChoice {
    /// The listed device at this index.
    Listed(usize),
    /// A device that is not listed, by its name: special targets such as the
    /// all-interfaces pseudo-device are not.
    Named(String),
}

/// The names of some devices.
pub open spec fn device_names(devices: Seq<DeviceInfo>) -> Seq<Seq<char>> {
    devices.map_values(|d: DeviceInfo| d.name@)
}

/// The error when no loopback interface is listed.
pub open spec fn no_loopback_text(devices: Seq<DeviceInfo>) -> Seq<char> {
    "no loopback interface found; pass --interface (available: "@ + join(
        device_names(devices),
        ", "@,
    ) + ")"@
}

/// Whether `c` is the right choice: without a wanted interface the first loopback
/// device; otherwise the first device of that name, or the bare name.
pub open spec fn chooses(
    devices: Seq<DeviceInfo>,
    interface: Option<Seq<char>>,
    c: Result<DeviceChoice, String>,
) -> bool {
    match interface {
        None => match c {
            Ok(DeviceChoice::Listed(i)) => i < devices.len() && devices[i as int].loopback
                && forall|k: int| 0 <= k < i ==> !(#[trigger] devices[k]).loopback,
            Ok(DeviceChoice::Named(_)) => false,
            Err(e) => e@ == no_loopback_text(devices) && forall|k: int|
                0 <= k < devices.len() ==> !(#[trigger] devices[k]).loopback,
        },
        Some(name) => match c {
            Ok(DeviceChoice::Listed(i)) => i < devices.len() && devices[i as int].name@ == name
                && forall|k: int| 0 <= k < i ==> (#[trigger] devices[k]).name@ != name,
            Ok(DeviceChoice::Named(n)) => n@ == name && forall|k: int|
                0 <= k < devices.len() ==> (#[trigger] devices[k]).name@ != name,
            Err(_) => false,
        },
    }
}

/// Resolves which capture device to use. The loopback interface is found by its flag,
/// so it works regardless of how the system names it.
pub fn resolve_device(devices: &Vec<DeviceInfo>, interface: Option<&str>) -> (c: Result<
    DeviceChoice,
    String,
>)
    ensures
        chooses(devices@, crate::render::opt_str(interface), c),
{
    match interface {
        None => {
            for i in 0..devices.len()
                invariant
                    interface is None,
                    forall|k: int| 0 <= k < i ==> !(#[trigger] devices@[k]).loopback,
            {
                if devices[i].loopback {
                    return Ok(DeviceChoice::Listed(i));
                }
            }
            let mut e = String::new();
            e.append("no loopback interface found; pass --interface (available: ");
            let ghost head = e@;
            let ghost names = device_names(devices@);
            assert(e@ =~= head + join(names.take(0), ", "@));
            for i in 0..devices.len()
                invariant
                    names == device_names(devices@),
                    e@ == head + join(names.take(i as int), ", "@),
            {
                proof {
                    join_next(names, i as int, ", "@);
                }
                if i > 0 {
                    e.append(", ");
                }
                e.append(devices[i].name.as_str());
                assert(e@ =~= head + join(names.take(i + 1), ", "@));
            }
            assert(names.take(names.len() as int) =~= names);
            e.append(")");
            Err(e)
        },
        Some(name) => {
            for i in 0..devices.len()
                invariant
                    interface == Some(name),
                    forall|k: int| 0 <= k < i ==> (#[trigger] devices@[k]).name@ != name@,
            {
                if same_text(devices[i].name.as_str(), name) {
                    return Ok(DeviceChoice::Listed(i));
                }
            }
            Ok(DeviceChoice::Named(name.to_owned()))
        },
    }
}

pub open spec fn datalink_text(dlt: i32) -> Seq<char> {
    if dlt == 0 {
        "NULL (BSD loopback)"@
    } else if dlt == 1 {
        "EN10MB (Ethernet)"@
    } else if dlt == 12 || dlt == 101 {
        "RAW (raw IP)"@
    } else if dlt == 113 {
        "LINUX_SLL (cooked)"@
    } else if dlt == 276 {
        "LINUX_SLL2 (cooked v2)"@
    } else if dlt == 228 {
        "IPV4"@
    } else if dlt == 229 {
        "IPV6"@
    } else {
        "unknown"@
    }
}

pub fn datalink_name(dlt: i32) -> (s: &'static str)
    ensures
        s@ == datalink_text(dlt),
{
    if dlt == 0 {
        "NULL (BSD loopback)"
    } else if dlt == 1 {
        "EN10MB (Ethernet)"
    } else if dlt == 12 || dlt == 101 {
        "RAW (raw IP)"
    } else if dlt == 113 {
        "LINUX_SLL (cooked)"
    } else if dlt == 276 {
        "LINUX_SLL2 (cooked v2)"
    } else if dlt == 228 {
        "IPV4"
    } else if dlt == 229 {
        "IPV6"
    } else {
        "unknown"
    }
}

/// The packet filter: traffic of the port, in tagged frames too.
pub open spec fn filter_text(port: u16) -> Seq<char> {
    "tcp port "@ + dec(port as nat) + " or (vlan and tcp port "@ + dec(port as nat) + ")"@
}

pub fn packet_filter(port: u16) -> (s: String)
    ensures
        s@ == filter_text(port),
{
    let mut s = String::new();
    s.append("tcp port ");
    push_dec(&mut s, port as u64);
    s.append(" or (vlan and tcp port ");
    push_dec(&mut s, port as u64);
    s.append(")");
    assert(s@ =~= filter_text(port));
    s
}

/// The line that says what is captured.
pub open spec fn capturing_text(device: Seq<char>, port: u16) -> Seq<char> {
    "tapgres: capturing on '"@ + device + "'  (filter: tcp port "@ + dec(port as nat) + ")"@
}

pub fn capturing_status(device: &str, port: u16) -> (s: String)
    ensures
        s@ == capturing_text(device@, port),
{
    let mut s = String::new();
    s.append("tapgres: capturing on '");
    s.append(device);
    s.append("'  (filter: tcp port ");
    push_dec(&mut s, port as u64);
    s.append(")");
    assert(s@ =~= capturing_text(device@, port));
    s
}

/// The line that names the datalink type.
pub fn datalink_status(dlt: i32) -> (s: String)
    ensures
        s@ == "tapgres: datalink type = "@ + crate::text::dec_int(dlt as int) + " ("@
            + datalink_text(dlt) + ")"@,
{
    let mut s = String::new();
    s.append("tapgres: datalink type = ");
    push_int(&mut s, dlt);
    s.append(" (");
    s.append(datalink_name(dlt));
    s.append(")");
    assert(s@ =~= "tapgres: datalink type = "@ + crate::text::dec_int(dlt as int) + " ("@
        + datalink_text(dlt) + ")"@);
    s
}

/// How many packets go by between two looks at the drop counter.
pub const STATS_INTERVAL: u32 = 10_000;

/// What a running capture has reported so far.
#[derive(Clone, Copy, PartialEq, Eq, Structural, Debug)]
pub struct CaptureWatch {
    pub warned_truncation: bool,
    pub last_dropped: u32,
    pub since_stats: u32,
}

/// The warning about packets cut short.
pub open spec fn truncation_text(caplen: u32, len: u32) -> Seq<char> {
    "tapgres: warning — packets truncated to "@ + dec(caplen as nat) + " of "@ + dec(len as nat)
        + " bytes; raise --snaplen to avoid gaps in decoding"@
}

/// The report of packets that the kernel dropped.
pub open spec fn drop_text(delta: nat) -> Seq<char> {
    "tapgres: kernel dropped "@ + dec(delta)
        + " packets (capture can't keep up); decoding may have gaps"@
}

impl CaptureWatch {
    pub fn new() -> (w: CaptureWatch)
        ensures
            w == (CaptureWatch { warned_truncation: false, last_dropped: 0, since_stats: 0 }),
    {
        CaptureWatch { warned_truncation: false, last_dropped: 0, since_stats: 0 }
    }

    /// Looks at a packet's lengths: the first one cut short is warned about, since it
    /// guarantees a reassembly gap.
    pub fn on_packet(&mut self, caplen: u32, len: u32) -> (warning: Option<String>)
        ensures
            ({
                let warns = caplen < len && !old(self).warned_truncation;
                &&& opt_text(warning) == (if warns {
                    Some(truncation_text(caplen, len))
                } else {
                    None
                })
                &&& *final(self) == (CaptureWatch {
                    warned_truncation: old(self).warned_truncation || warns,
                    ..*old(self)
                })
            }),
    {
        if caplen < len && !self.warned_truncation {
            self.warned_truncation = true;
            let mut s = String::new();
            s.append("tapgres: warning — packets truncated to ");
            push_dec(&mut s, caplen as u64);
            s.append(" of ");
            push_dec(&mut s, len as u64);
            s.append(" bytes; raise --snaplen to avoid gaps in decoding");
            assert(s@ =~= truncation_text(caplen, len));
            Some(s)
        } else {
            None
        }
    }

    /// Counts a packet; whether it is time to look at the drop counter.
    pub fn tick(&mut self) -> (due: bool)
        ensures
            due == (old(self).since_stats + 1 >= STATS_INTERVAL),
            *final(self) == (CaptureWatch {
                since_stats: if due {
                    0
                } else {
                    (old(self).since_stats + 1) as u32
                },
                ..*old(self)
            }),
    {
        if self.since_stats >= STATS_INTERVAL - 1 {
            self.since_stats = 0;
            true
        } else {
            self.since_stats = self.since_stats + 1;
            false
        }
    }

    /// Reports newly dropped packets since the last look; silent when nothing was
    /// dropped.
    pub fn report_drops(&mut self, dropped: u32) -> (report: Option<String>)
        ensures
            ({
                let more = dropped > old(self).last_dropped;
                &&& opt_text(report) == (if more {
                    Some(drop_text((dropped - old(self).last_dropped) as nat))
                } else {
                    None
                })
                &&& *final(self) == (CaptureWatch {
                    last_dropped: if more {
                        dropped
                    } else {
                        old(self).last_dropped
                    },
                    ..*old(self)
                })
            }),
    {
        if dropped > self.last_dropped {
            let delta: u32 = dropped - self.last_dropped;
            self.last_dropped = dropped;
            let mut s = String::new();
            s.append("tapgres: kernel dropped ");
            push_dec(&mut s, delta as u64);
            s.append(" packets (capture can't keep up); decoding may have gaps");
            assert(s@ =~= drop_text(delta as nat));
            Some(s)
        } else {
            None
        }
    }

    /// Takes a captured packet: warns of the first one cut short, hands the TCP segment
    /// that it carries, if any, to the connection table, and counts it.
    pub fn take_packet(
        &mut self,
        table: &mut ConnTable,
        packet: Packet<'_>,
        pg_port: u16,
        metrics: &mut Metrics,
        now: u64,
        out: &mut Vec<Output>,
    ) -> (r: PacketOutcome)
        requires
            old(table).wf(),
        ensures
            final(table).wf(),
            *final(self) == watched(*old(self), packet.caplen, packet.len),
            r.look_at_drops == (old(self).since_stats + 1 >= STATS_INTERVAL),
            match frame_segment(packet.data@, packet.dlt) {
                Some(seg) => exists|t: Table, m: Ledger|
                    {
                        &&& #[trigger] sweeps(ticked(old(table)@), old(metrics)@, now, t, m)
                        &&& ({
                            let s = segment_effect(t, m, seg, pg_port, now);
                            &&& final(table)@ == s.table
                            &&& final(metrics)@ == s.ledger
                            &&& emitted(
                                old(out)@,
                                final(out)@,
                                warnings(*old(self), packet.caplen, packet.len) + s.events,
                            )
                            &&& r.malformed == s.malformed
                        })
                    },
                None => {
                    &&& final(table)@ == old(table)@
                    &&& final(metrics)@ == old(metrics)@
                    &&& emitted(
                        old(out)@,
                        final(out)@,
                        warnings(*old(self), packet.caplen, packet.len),
                    )
                    &&& !r.malformed
                },
            },
    {
        let ghost shown = out@;
        let ghost first = warnings(*old(self), packet.caplen, packet.len);
        let mut malformed = false;
        match self.on_packet(packet.caplen, packet.len) {
            Some(warning) => emit_status(warning.as_str(), out),
            None => proof {
                emitted_nothing(out@);
            },
        }
        assert(emitted(shown, out@, first));
        let ghost mid = out@;
        proof {
            payload_is_bounded(packet.data@, packet.dlt);
        }
        if let Some(seg) = parse_frame(packet.data, packet.dlt) {
            malformed = table.handle(&seg, pg_port, metrics, now, out);
            proof {
                let (t, m) = choose|t: Table, m: Ledger|
                    {
                        &&& #[trigger] sweeps(ticked(old(table)@), old(metrics)@, now, t, m)
                        &&& ({
                            let s = segment_effect(t, m, seg@, pg_port, now);
                            &&& table@ == s.table
                            &&& metrics@ == s.ledger
                            &&& emitted(mid, out@, s.events)
                            &&& malformed == s.malformed
                        })
                    };
                let s = segment_effect(t, m, seg@, pg_port, now);
                emitted_in_turn(shown, mid, out@, first, s.events);
                assert(sweeps(ticked(old(table)@), old(metrics)@, now, t, m));
            }
        }
        let look_at_drops = self.tick();
        PacketOutcome { malformed, look_at_drops }
    }
}

/// A captured packet: its bytes, its lengths as captured and on the wire, and the
/// datalink type of the capture.
#[derive(Clone, Copy)]
pub struct Packet<'a> {
    pub data: &'a [u8],
    pub caplen: u32,
    pub len: u32,
    pub dlt: i32,
}

/// What a packet came to.
#[derive(Clone, Copy, PartialEq, Eq, Structural, Debug)]
pub struct PacketOutcome {
    /// Whether a message stated more fields than were buffered.
    pub malformed: bool,
    /// Whether it is time to look at the drop counter.
    pub look_at_drops: bool,
}

/// What is shown of a packet's lengths: the first one cut short is warned about.
pub open spec fn warnings(w: CaptureWatch, caplen: u32, len: u32) -> Seq<Event> {
    if caplen < len && !w.warned_truncation {
        seq![Event::Status(truncation_text(caplen, len))]
    } else {
        Seq::empty()
    }
}

/// What a capture has reported once a packet has gone by.
pub open spec fn watched(w: CaptureWatch, caplen: u32, len: u32) -> CaptureWatch {
    CaptureWatch {
        warned_truncation: w.warned_truncation || caplen < len,
        since_stats: if w.since_stats + 1 >= STATS_INTERVAL {
            0
        } else {
            (w.since_stats + 1) as u32
        },
        ..w
    }
}

/// However many packets are cut short, one warning is shown.
pub proof fn truncation_is_warned_of_once(w: CaptureWatch, caplen: u32, len: u32, next: u32)
    requires
        warnings(w, caplen, len).len() > 0,
    ensures
        warnings(watched(w, caplen, len), caplen, len).len() == 0,
        warnings(watched(watched(w, caplen, len), next, next), caplen, len).len() == 0,
{
}

} // verus!
