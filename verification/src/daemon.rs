//! The daemon's command line and the choices its main loop makes about what the dongles
//! report.
use vstd::prelude::*;
use crate::fleet::{parse_telemetry_line, reports, telemetry_of_line, NodeTelemetry};
use crate::fmt::{dec_string, hex_padded, push_hex_padded, push_nat, push_decimal, push_str};
use crate::lexer::{copy_range, hex_u32, parse_node_label, strip_hex_prefix, trim, trim_chars};
use crate::frame::{MeshPacket, FLAG_SACK};
use crate::schema::{ContactRecord, MessageRecord, MessageStatus, TrustState};
use crate::text::{str_chars, str_eq, string_from_chars};
use crate::transport::{announced_node_id, parse_dongle_node_id, string_views};

verus! {

/// Index of the first `c` in `s` at or after `i`, or the length of `s`.
pub open spec fn first_char(s: Seq<char>, c: char, i: int) -> int
    decreases s.len() - i,
{
    if i < 0 || i >= s.len() {
        s.len() as int
    } else if s[i] == c {
        i
    } else {
        first_char(s, c, i + 1)
    }
}

pub proof fn lemma_first_char_range(s: Seq<char>, c: char, i: int)
    requires
        0 <= i <= s.len(),
    ensures
        i <= first_char(s, c, i) <= s.len(),
    decreases s.len() - i,
{
    if i < s.len() && s[i] != c {
        lemma_first_char_range(s, c, i + 1);
    }
}

/// The comma-separated pieces of `s` from index `i` on (`str::split(',')`).
pub open spec fn pieces_from(s: Seq<char>, i: int) -> Seq<Seq<char>>
    decreases s.len() - i,
{
    let p = first_char(s, ',', i);
    if i < 0 || i > s.len() || p >= s.len() {
        seq![s.subrange(i, s.len() as int)]
    } else {
        proof {
            lemma_first_char_range(s, ',', i);
        }
        seq![s.subrange(i, p)] + pieces_from(s, p + 1)
    }
}

/// Whether `s` begins with `p`.
pub open spec fn starts_with(s: Seq<char>, p: Seq<char>) -> bool {
    s.len() >= p.len() && s.take(p.len() as int) == p
}

/// `s` without the prefix `p` when it has it (`str::strip_prefix`, keeping `s` otherwise).
pub open spec fn strip_prefix(s: Seq<char>, p: Seq<char>) -> Seq<char> {
    if starts_with(s, p) {
        s.skip(p.len() as int)
    } else {
        s
    }
}

/// A port named in a `--port` list: the piece trimmed, without a leading `port=`, and,
/// where the list followed a separate `--port` word, without a leading `--port=` either.
pub open spec fn port_entry(piece: Seq<char>, strip_flag: bool) -> Seq<char> {
    let t = strip_prefix(trim(piece), "port="@);
    if strip_flag {
        strip_prefix(t, "--port="@)
    } else {
        t
    }
}

/// The ports of a list of pieces, skipping those that come out empty.
pub open spec fn port_entries(pieces: Seq<Seq<char>>, strip_flag: bool) -> Seq<Seq<char>>
    decreases pieces.len(),
{
    if pieces.len() == 0 {
        Seq::empty()
    } else {
        let e = port_entry(pieces[0], strip_flag);
        let rest = port_entries(pieces.drop_first(), strip_flag);
        if e.len() == 0 {
            rest
        } else {
            seq![e] + rest
        }
    }
}

/// The ports of a comma-separated list.
pub open spec fn ports_in(s: Seq<char>, strip_flag: bool) -> Seq<Seq<char>> {
    port_entries(pieces_from(s, 0), strip_flag)
}

/// The daemon's options as character sequences.
pub struct OptionsView {
    pub ports: Seq<Seq<char>>,
    pub log_path: Seq<char>,
    pub node_id: u32,
    pub node_id_given: bool,
    pub auto_sync: bool,
    pub push_message: Option<Seq<char>>,
    pub check_status: bool,
}

/// The node id assumed until the command line or a dongle gives one.
pub const DEFAULT_NODE_ID: u32 = 0xBEBCE5B8;

/// The options before any argument is read.
pub open spec fn default_options() -> OptionsView {
    OptionsView {
        ports: Seq::empty(),
        log_path: "/tmp/gibberish/daemon.log"@,
        node_id: DEFAULT_NODE_ID,
        node_id_given: false,
        auto_sync: true,
        push_message: None,
        check_status: false,
    }
}

/// The options after reading the arguments from index `i` on, starting from `o`: each
/// option word is matched exactly; `--port`/`-p`, `--log-file`/`-l`, `--node-id` and
/// `push` take the next argument (and end the reading when there is none); a node id
/// that does not read as hexadecimal is ignored; anything else is skipped.
pub open spec fn options_from(args: Seq<Seq<char>>, i: int, o: OptionsView) -> OptionsView
    decreases args.len() - i,
{
    if i < 0 || i >= args.len() {
        o
    } else {
        let a = args[i];
        let more = i + 1 < args.len();
        if a == "--port"@ || a == "-p"@ {
            if more {
                options_from(args, i + 2, OptionsView { ports: o.ports + ports_in(args[i + 1], true), ..o })
            } else {
                o
            }
        } else if starts_with(a, "--port="@) {
            options_from(args, i + 1, OptionsView { ports: o.ports + ports_in(a.skip(7), false), ..o })
        } else if a == "--log-file"@ || a == "-l"@ {
            if more {
                options_from(args, i + 2, OptionsView { log_path: args[i + 1], ..o })
            } else {
                o
            }
        } else if a == "--node-id"@ {
            if more {
                let o2 = match hex_u32(strip_hex_prefix(args[i + 1])) {
                    Some(id) => OptionsView { node_id: id, node_id_given: true, ..o },
                    None => o,
                };
                options_from(args, i + 2, o2)
            } else {
                o
            }
        } else if a == "--auto-sync"@ {
            options_from(args, i + 1, OptionsView { auto_sync: true, ..o })
        } else if a == "--no-sync"@ {
            options_from(args, i + 1, OptionsView { auto_sync: false, ..o })
        } else if a == "push"@ {
            if more {
                options_from(args, i + 2, OptionsView { push_message: Some(args[i + 1]), ..o })
            } else {
                o
            }
        } else if a == "status"@ {
            options_from(args, i + 1, OptionsView { check_status: true, ..o })
        } else {
            options_from(args, i + 1, o)
        }
    }
}

/// The daemon's options.
pub struct DaemonOptions {
    /// Serial ports to open, in the order given (empty: discover them).
    pub ports: Vec<String>,
    pub log_path: String,
    pub node_id: u32,
    /// Whether `--node-id` set the node id (else a dongle may report it).
    pub node_id_given: bool,
    pub auto_sync: bool,
    /// A message to broadcast once, instead of running.
    pub push_message: Option<String>,
    /// Whether to report the hardware status and stop.
    pub check_status: bool,
}

impl DaemonOptions {
    pub open spec fn view(&self) -> OptionsView {
        OptionsView {
            ports: string_views(self.ports@),
            log_path: self.log_path@,
            node_id: self.node_id,
            node_id_given: self.node_id_given,
            auto_sync: self.auto_sync,
            push_message: match self.push_message {
                Some(m) => Some(m@),
                None => None,
            },
            check_status: self.check_status,
        }
    }
}

fn find_char(s: &[char], c: char, from: usize) -> (r: usize)
    requires
        from <= s@.len(),
    ensures
        r == first_char(s@, c, from as int),
        from <= r <= s@.len(),
{
    let n = s.len();
    let mut i = from;
    while i < n && s[i] != c
        invariant
            n == s@.len(),
            from <= i <= n,
            first_char(s@, c, from as int) == first_char(s@, c, i as int),
        decreases n - i,
    {
        i = i + 1;
    }
    i
}

fn starts_with_chars(s: &[char], p: &[char]) -> (r: bool)
    ensures
        r == starts_with(s@, p@),
{
    if s.len() < p.len() {
        return false;
    }
    let mut i: usize = 0;
    while i < p.len()
        invariant
            p@.len() <= s@.len(),
            i <= p@.len(),
            forall|k: int| 0 <= k < i ==> s@[k] == p@[k],
        decreases p@.len() - i,
    {
        if s[i] != p[i] {
            assert(s@.take(p@.len() as int)[i as int] != p@[i as int]);
            return false;
        }
        i = i + 1;
    }
    assert(s@.take(p@.len() as int) =~= p@);
    true
}

fn strip_prefix_chars(s: Vec<char>, p: &[char]) -> (r: Vec<char>)
    ensures
        r@ == strip_prefix(s@, p@),
{
    if starts_with_chars(s.as_slice(), p) {
        copy_range(s.as_slice(), p.len(), s.len())
    } else {
        s
    }
}

fn port_entry_chars(piece: &[char], strip_flag: bool) -> (r: Vec<char>)
    ensures
        r@ == port_entry(piece@, strip_flag),
{
    let port_eq = ['p', 'o', 'r', 't', '='];
    let flag_eq = ['-', '-', 'p', 'o', 'r', 't', '='];
    proof {
        reveal_strlit("port=");
        reveal_strlit("--port=");
    }
    assert(port_eq@ =~= "port="@);
    assert(flag_eq@ =~= "--port="@);
    let t = strip_prefix_chars(trim_chars(piece), port_eq.as_slice());
    if strip_flag {
        strip_prefix_chars(t, flag_eq.as_slice())
    } else {
        t
    }
}

/// Appends the ports of the comma-separated list `s`.
fn push_ports(s: &[char], strip_flag: bool, out: &mut Vec<String>)
    ensures
        string_views(final(out)@) == string_views(old(out)@) + ports_in(s@, strip_flag),
{
    let n = s.len();
    let mut start: usize = 0;
    loop
        invariant_except_break
            string_views(out@) + port_entries(pieces_from(s@, start as int), strip_flag) == string_views(old(out)@)
                + ports_in(s@, strip_flag),
        invariant
            n == s@.len(),
            start <= n,
        ensures
            string_views(out@) == string_views(old(out)@) + ports_in(s@, strip_flag),
        decreases n - start,
    {
        let p = find_char(s, ',', start);
        let piece = copy_range(s, start, p);
        let e = port_entry_chars(piece.as_slice(), strip_flag);
        let ghost before = out@;
        let ghost rest = if p < n { pieces_from(s@, p + 1) } else { Seq::<Seq<char>>::empty() };
        proof {
            assert(pieces_from(s@, start as int) =~= seq![piece@] + rest);
            assert((seq![piece@] + rest).drop_first() =~= rest);
        }
        if e.len() > 0 {
            out.push(string_from_chars(e.as_slice()));
            proof {
                assert(string_views(out@) =~= string_views(before).push(e@));
                assert(string_views(before) + (seq![e@] + port_entries(rest, strip_flag)) =~= string_views(out@)
                    + port_entries(rest, strip_flag));
            }
        }
        if p >= n {
            proof {
                assert(port_entries(rest, strip_flag) =~= Seq::<Seq<char>>::empty());
                assert(string_views(out@) + Seq::<Seq<char>>::empty() =~= string_views(out@));
            }
            break;
        }
        start = p + 1;
    }
}

/// Reads the daemon's command line (the arguments after the program name); see
/// `options_from`.
pub fn parse_daemon_args(args: &[String]) -> (r: DaemonOptions)
    ensures
        r.view() == options_from(string_views(args@), 0, default_options()),
{
    let ghost av = string_views(args@);
    let mut o = DaemonOptions {
        ports: Vec::new(),
        log_path: "/tmp/gibberish/daemon.log".to_owned(),
        node_id: DEFAULT_NODE_ID,
        node_id_given: false,
        auto_sync: true,
        push_message: None,
        check_status: false,
    };
    assert(o.view().ports =~= Seq::<Seq<char>>::empty());
    let n = args.len();
    let mut i: usize = 0;
    let flag_eq = ['-', '-', 'p', 'o', 'r', 't', '='];
    proof {
        reveal_strlit("--port=");
    }
    assert(flag_eq@ =~= "--port="@);
    while i < n
        invariant
            n == args@.len(),
            av == string_views(args@),
            av.len() == n,
            flag_eq@ == "--port="@,
            i <= n,
            options_from(av, 0, default_options()) == options_from(av, i as int, o.view()),
        ensures
            options_from(av, 0, default_options()) == o.view(),
        decreases n - i,
    {
        let a = args[i].as_str();
        assert(av[i as int] == a@);
        let more = i + 1 < n;
        let ac = str_chars(a);
        if str_eq(a, "--port") || str_eq(a, "-p") {
            if !more {
                break;
            }
            let next = str_chars(args[i + 1].as_str());
            assert(av[i + 1] == args@[i + 1]@);
            let ghost before = o.view();
            push_ports(next.as_slice(), true, &mut o.ports);
            assert(o.view() == OptionsView { ports: before.ports + ports_in(av[i + 1], true), ..before });
            i = i + 2;
        } else if starts_with_chars(ac.as_slice(), flag_eq.as_slice()) {
            let tail = copy_range(ac.as_slice(), 7, ac.len());
            assert(tail@ =~= a@.skip(7));
            let ghost before = o.view();
            push_ports(tail.as_slice(), false, &mut o.ports);
            assert(o.view() == OptionsView { ports: before.ports + ports_in(a@.skip(7), false), ..before });
            i = i + 1;
        } else if str_eq(a, "--log-file") || str_eq(a, "-l") {
            if !more {
                break;
            }
            assert(av[i + 1] == args@[i + 1]@);
            o.log_path = args[i + 1].clone();
            i = i + 2;
        } else if str_eq(a, "--node-id") {
            if !more {
                break;
            }
            assert(av[i + 1] == args@[i + 1]@);
            match parse_node_label(args[i + 1].as_str()) {
                Some(id) => {
                    o.node_id = id;
                    o.node_id_given = true;
                },
                None => {},
            }
            i = i + 2;
        } else if str_eq(a, "--auto-sync") {
            o.auto_sync = true;
            i = i + 1;
        } else if str_eq(a, "--no-sync") {
            o.auto_sync = false;
            i = i + 1;
        } else if str_eq(a, "push") {
            if !more {
                break;
            }
            assert(av[i + 1] == args@[i + 1]@);
            o.push_message = Some(args[i + 1].clone());
            i = i + 2;
        } else if str_eq(a, "status") {
            o.check_status = true;
            i = i + 1;
        } else {
            i = i + 1;
        }
    }
    o
}

/// The alias given to a station first heard through its telemetry: `Station-` and the low
/// 16 bits of its node id in four uppercase hexadecimal digits.
pub open spec fn station_alias(node_id: u32) -> Seq<char> {
    "Station-"@ + hex_padded((node_id & 0xFFFF) as nat, 4)
}

/// Computes `station_alias(node_id)`.
pub fn station_alias_text(node_id: u32) -> (r: String)
    ensures
        r@ == station_alias(node_id),
{
    let mut cs: Vec<char> = Vec::new();
    push_str(&mut cs, "Station-");
    push_hex_padded(&mut cs, (node_id & 0xFFFF) as u64, 4);
    string_from_chars(cs.as_slice())
}

/// The contact stored for a station first heard through its telemetry: its alias, no
/// public key yet, unverified, heard at `now` with the reported signal.
pub fn discovered_contact(node_id: u32, alias: String, now: i64, rssi: i8, lqi: u8) -> (r: ContactRecord)
    ensures
        r.node_id == node_id,
        r.alias@ == alias@,
        r.pubkey@ == Seq::new(32, |i: int| 0u8),
        r.trust_state == TrustState::Unverified,
        r.last_seen == now,
        r.rssi == rssi as i16,
        r.lqi == lqi,
{
    let r = ContactRecord {
        node_id,
        alias,
        pubkey: [0u8; 32],
        trust_state: TrustState::Unverified,
        last_seen: now,
        rssi: rssi as i16,
        lqi,
    };
    assert(r.pubkey@ =~= Seq::new(32, |i: int| 0u8));
    r
}

/// The id given to a message received from the mesh: `rx-`, the time and a counter.
pub fn received_message_id(now: i64, counter: u64) -> (r: String)
    ensures
        r@ == "rx-"@ + dec_string(now as int) + "-"@ + dec_string(counter as int),
{
    let mut cs: Vec<char> = Vec::new();
    push_str(&mut cs, "rx-");
    push_decimal(&mut cs, now);
    push_str(&mut cs, "-");
    push_nat(&mut cs, counter);
    string_from_chars(cs.as_slice())
}

/// What a dongle's telemetry line reports.
pub enum DongleReport {
    /// Telemetry of this host's own node.
    Local(NodeTelemetry),
    /// Telemetry of another station, with the alias it is stored under.
    Peer { node_id: u32, alias: String, telemetry: NodeTelemetry },
    /// The line is no telemetry line, or its node id is not hexadecimal.
    Nothing,
}

/// Which node a telemetry line reports on, once its node id is read.
pub open spec fn reported_node(line: Seq<char>) -> Option<u32> {
    match telemetry_of_line(line) {
        Some(f) => hex_u32(strip_hex_prefix(f.node_id)),
        None => None,
    }
}

/// The node this host speaks for and the dongles attached to it.
pub struct LinkState {
    local_node_id: u32,
    node_id_given: bool,
    local_dongle_ids: Vec<u32>,
}

impl LinkState {
    /// This host's node id (0 while unknown).
    pub closed spec fn local_id(&self) -> u32 {
        self.local_node_id
    }

    /// Whether the command line fixed the node id.
    pub closed spec fn id_fixed(&self) -> bool {
        self.node_id_given
    }

    /// This host's node id.
    pub fn local_node_id(&self) -> (r: u32)
        ensures
            r == self.local_id(),
    {
        self.local_node_id
    }

    /// The node ids announced by attached dongles.
    pub closed spec fn dongle_ids(&self) -> Seq<u32> {
        self.local_dongle_ids@
    }

    pub closed spec fn well_formed(&self) -> bool {
        self.local_dongle_ids@.no_duplicates()
    }

    /// The state at start-up: the node id itself counts as one of this host's.
    pub fn new(local_node_id: u32, node_id_given: bool) -> (r: Self)
        ensures
            r.well_formed(),
            r.local_id() == local_node_id,
            r.id_fixed() == node_id_given,
            r.dongle_ids() == (if local_node_id != 0 { seq![local_node_id] } else { Seq::<u32>::empty() }),
    {
        let mut ids: Vec<u32> = Vec::new();
        if local_node_id != 0 {
            ids.push(local_node_id);
        }
        LinkState { local_node_id, node_id_given, local_dongle_ids: ids }
    }

    /// Whether a packet from `src` is this host's own transmission heard back: `src` is an
    /// attached dongle's node or this host's node id.
    pub fn is_self_echo(&self, src: u32) -> (r: bool)
        ensures
            r == (self.dongle_ids().contains(src) || (self.local_id() != 0 && src == self.local_id())),
    {
        let n = self.local_dongle_ids.len();
        let mut i: usize = 0;
        while i < n
            invariant
                n == self.local_dongle_ids@.len(),
                i <= n,
                forall|k: int| 0 <= k < i ==> self.local_dongle_ids@[k] != src,
            decreases n - i,
        {
            if self.local_dongle_ids[i] == src {
                return true;
            }
            i = i + 1;
        }
        self.local_node_id != 0 && src == self.local_node_id
    }

    /// Takes in a log line from a dongle (`is_primary`: the first one opened). A node id
    /// that the line announces joins this host's dongle ids, and becomes the local node id
    /// when the command line fixed none, the line came from the primary dongle and the id
    /// differs; that new id is returned. A telemetry line whose node id reads as
    /// hexadecimal is then reported as this node's own telemetry or as another station's,
    /// under its alias.
    pub fn observe_line(&mut self, line: &str, is_primary: bool) -> (r: (Option<u32>, DongleReport))
        requires
            old(self).well_formed(),
        ensures
            final(self).well_formed(),
            final(self).id_fixed() == old(self).id_fixed(),
            forall|x: u32|
                #![trigger final(self).dongle_ids().contains(x)]
                final(self).dongle_ids().contains(x) <==> (old(self).dongle_ids().contains(x) || announced_node_id(line@)
                    == Some(x)),
            match announced_node_id(line@) {
                Some(id) => if !old(self).id_fixed() && is_primary && id != old(self).local_id() {
                    final(self).local_id() == id && r.0 == Some(id)
                } else {
                    final(self).local_id() == old(self).local_id() && r.0 is None
                },
                None => final(self).local_id() == old(self).local_id() && r.0 is None,
            },
            match reported_node(line@) {
                None => r.1 is Nothing,
                Some(peer) => if peer == final(self).local_id() {
                    r.1 matches DongleReport::Local(t) && reports(t, telemetry_of_line(line@)->0)
                } else {
                    r.1 matches DongleReport::Peer { node_id, alias, telemetry } && node_id == peer && alias@
                        == station_alias(peer) && reports(telemetry, telemetry_of_line(line@)->0)
                },
            },
    {
        let mut changed: Option<u32> = None;
        match parse_dongle_node_id(line) {
            Some(id) => {
                let ghost before = self.local_dongle_ids@;
                if !self.is_self_echo_id(id) {
                    self.local_dongle_ids.push(id);
                    proof {
                        assert forall|x: u32| #[trigger] self.local_dongle_ids@.contains(x) <==> (before.contains(x) || x == id) by {
                            if x == id {
                                assert(self.local_dongle_ids@[before.len() as int] == id);
                            }
                            if before.contains(x) {
                                let k = choose|k: int| 0 <= k < before.len() && before[k] == x;
                                assert(self.local_dongle_ids@[k] == x);
                            }
                            if self.local_dongle_ids@.contains(x) && x != id {
                                let k = choose|k: int| 0 <= k < self.local_dongle_ids@.len() && self.local_dongle_ids@[k] == x;
                                assert(before[k] == x);
                            }
                        }
                    }
                }
                if !self.node_id_given && is_primary && id != self.local_node_id {
                    self.local_node_id = id;
                    changed = Some(id);
                }
            },
            None => {},
        }
        let report = match parse_telemetry_line(line) {
            None => DongleReport::Nothing,
            Some(t) => match parse_node_label(t.node_id.as_str()) {
                None => DongleReport::Nothing,
                Some(peer) => if peer == self.local_node_id {
                    DongleReport::Local(t)
                } else {
                    DongleReport::Peer { node_id: peer, alias: station_alias_text(peer), telemetry: t }
                },
            },
        };
        (changed, report)
    }

    fn is_self_echo_id(&self, id: u32) -> (r: bool)
        ensures
            r == self.dongle_ids().contains(id),
    {
        let n = self.local_dongle_ids.len();
        let mut i: usize = 0;
        while i < n
            invariant
                n == self.local_dongle_ids@.len(),
                i <= n,
                forall|k: int| 0 <= k < i ==> self.local_dongle_ids@[k] != id,
            decreases n - i,
        {
            if self.local_dongle_ids[i] == id {
                return true;
            }
            i = i + 1;
        }
        false
    }
}

/// What a packet read from the dongle is for.
pub enum PacketRoute {
    /// A SACK from a peer: answer it and hold back our own.
    Sack,
    /// A chunk of a message: reassemble it.
    Chunk,
}

/// Routes a packet from the dongle: SACKs by their flag, everything else as a chunk.
pub fn packet_route(p: &MeshPacket) -> (r: PacketRoute)
    ensures
        (r is Sack) == (p.header.flags & FLAG_SACK != 0),
{
    if (p.header.flags & FLAG_SACK) != 0 {
        PacketRoute::Sack
    } else {
        PacketRoute::Chunk
    }
}

/// The chat record of a message reassembled from the mesh: none for our own transmission
/// overheard, else the message, delivered, in the swarm conversation `#all`.
pub fn received_record(self_echo: bool, msg_id: String, src_node_id: u32, now: i64, text: String) -> (r: Option<
    MessageRecord,
>)
    ensures
        self_echo ==> r is None,
        !self_echo ==> (r matches Some(rec) && rec.id@ == msg_id@ && rec.convo_id@ == "#all"@ && rec.sender_node_id
            == src_node_id && rec.timestamp == now && rec.text@ == text@ && rec.status == MessageStatus::Delivered),
{
    if self_echo {
        None
    } else {
        Some(
            MessageRecord {
                id: msg_id,
                convo_id: "#all".to_string(),
                sender_node_id: src_node_id,
                timestamp: now,
                text,
                status: MessageStatus::Delivered,
            },
        )
    }
}

} // verus!
