//! The records the service hands out: machines, targets and ping results,
//! with the public (masked) forms of each.
use vstd::prelude::*;
use crate::text::{
    split_char, split_chars, join_char, join_range, contains_char, chars_of, concat_chars,
    string_from_chars,
};

verus! {

/// A stored machine: timestamps are Unix seconds.
pub struct MachineRecord {
    pub id: i32,
    pub name: String,
    pub ip: String,
    pub key: String,
    pub created: i64,
    pub updated: Option<i64>,
}

/// A stored target: timestamps are Unix seconds.
pub struct TargetRecord {
    pub id: i32,
    pub name: String,
    pub domain: Option<String>,
    pub ipv4: Option<String>,
    pub ipv6: Option<String>,
    pub created: i64,
    pub updated: Option<i64>,
}

/// A stored ping result: `created` is in Unix seconds.
pub struct PingRecord {
    pub id: i32,
    pub machine_id: i32,
    pub target_id: i32,
    pub ipv6: bool,
    pub created: i64,
    pub min: i32,
    pub avg: i32,
    pub fail: i32,
}

/// A machine with all its data.
pub struct Machine {
    pub id: i32,
    pub name: String,
    pub ip: String,
    pub key: String,
    pub created: i64,
    pub updated: Option<i64>,
}

/// A machine as the public API shows it: address masked, key left out.
pub struct MaskedMachine {
    pub id: i32,
    pub name: String,
    pub ip: String,
    pub created: i64,
    pub updated: Option<i64>,
}

/// A machine in the sidebar list.
pub struct MachineListItem {
    pub id: i32,
    pub name: String,
    pub updated: i64,
}

/// A machine with the targets it probes.
pub struct MachineDetail {
    pub machine: MaskedMachine,
    pub targets: Vec<Target>,
}

/// The machine a client authenticated as.
pub struct ClientAuthInfo {
    pub id: i32,
    pub name: String,
}

/// A target with all its data.
pub struct Target {
    pub id: i32,
    pub name: String,
    pub domain: Option<String>,
    pub ipv4: Option<String>,
    pub ipv6: Option<String>,
    pub created: i64,
    pub updated: Option<i64>,
}

/// A target as the public API shows it.
pub struct TargetPublic {
    pub id: i32,
    pub name: String,
    pub created: i64,
    pub updated: Option<i64>,
}

/// A ping result.
pub struct PingResponse {
    pub timestamp: i64,
    pub min: i32,
    pub avg: i32,
    pub fail: i32,
}

/// A ping result for charts: (timestamp, min, avg, fail).
pub type PingData = (i64, i32, i32, i32);

/// The address with its host part hidden: an IPv4 address keeps its first
/// two octets (`a.b.*.*`); otherwise the colon-separated fields lose their
/// last four (or, with at most four fields, their last one) and `::*`
/// follows.
pub open spec fn masked_ip(ip: Seq<char>) -> Seq<char> {
    if ip.contains('.') {
        let p = split_char(ip, '.');
        p[0] + seq!['.'] + p[1] + seq!['.', '*', '.', '*']
    } else {
        let p = split_char(ip, ':');
        let n = p.len();
        let prefix = if n > 4 {
            join_char(p.subrange(0, n - 4), ':')
        } else if n > 1 {
            join_char(p.subrange(0, n - 1), ':')
        } else {
            ip
        };
        prefix + seq![':', ':', '*']
    }
}

proof fn lemma_split_two(s: Seq<char>, c: char)
    requires
        s.contains(c),
    ensures
        split_char(s, c).len() >= 2,
{
    crate::text::lemma_split_char_many(s, c);
}

impl Machine {
    /// Hides the host part of an address.
    pub fn mask_ip(ip: &str) -> (res: String)
        ensures
            res@ == masked_ip(ip@),
    {
        let cs = chars_of(ip);
        if contains_char(&cs, '.') {
            let parts = split_chars(&cs, '.');
            proof {
                lemma_split_two(cs@, '.');
            }
            let mut dot: Vec<char> = Vec::new();
            dot.push('.');
            let mut tail: Vec<char> = Vec::new();
            tail.push('.');
            tail.push('*');
            tail.push('.');
            tail.push('*');
            let a = concat_chars(&parts[0], &dot);
            let b = concat_chars(&a, &parts[1]);
            let c = concat_chars(&b, &tail);
            assert(dot@ =~= seq!['.']);
            assert(tail@ =~= seq!['.', '*', '.', '*']);
            string_from_chars(&c)
        } else {
            let parts = split_chars(&cs, ':');
            let n = parts.len();
            let ghost p = split_char(cs@, ':');
            assert(parts@.map_values(|f: Vec<char>| f@) =~= p);
            let prefix = if n > 4 {
                let r = join_range(&parts, 0, n - 4, ':');
                assert(parts@.subrange(0, n - 4).map_values(|f: Vec<char>| f@) =~= p.subrange(
                    0,
                    n - 4,
                ));
                r
            } else if n > 1 {
                let r = join_range(&parts, 0, n - 1, ':');
                assert(parts@.subrange(0, n - 1).map_values(|f: Vec<char>| f@) =~= p.subrange(
                    0,
                    n - 1,
                ));
                r
            } else {
                cs
            };
            let mut tail: Vec<char> = Vec::new();
            tail.push(':');
            tail.push(':');
            tail.push('*');
            assert(tail@ =~= seq![':', ':', '*']);
            let out = concat_chars(&prefix, &tail);
            string_from_chars(&out)
        }
    }

    /// The public form: address masked, key dropped.
    pub fn masked(self) -> (res: MaskedMachine)
        ensures
            res.id == self.id,
            res.name@ == self.name@,
            res.ip@ == masked_ip(self.ip@),
            res.created == self.created,
            res.updated == self.updated,
    {
        let ip = Machine::mask_ip(self.ip.as_str());
        MaskedMachine {
            id: self.id,
            name: self.name,
            ip,
            created: self.created,
            updated: self.updated,
        }
    }

    /// The sidebar entry: never-updated machines show 0.
    pub fn list_item(self) -> (res: MachineListItem)
        ensures
            res.id == self.id,
            res.name@ == self.name@,
            res.updated == (match self.updated {
                Some(u) => u,
                None => 0,
            }),
    {
        MachineListItem {
            id: self.id,
            name: self.name,
            updated: match self.updated {
                Some(u) => u,
                None => 0,
            },
        }
    }

    /// The machine a stored record describes.
    pub fn from_record(m: MachineRecord) -> (res: Machine)
        ensures
            res.id == m.id,
            res.name@ == m.name@,
            res.ip@ == m.ip@,
            res.key@ == m.key@,
            res.created == m.created,
            res.updated == m.updated,
    {
        Machine {
            id: m.id,
            name: m.name,
            ip: m.ip,
            key: m.key,
            created: m.created,
            updated: m.updated,
        }
    }

    /// A copy of the machine.
    pub fn duplicate(&self) -> (res: Machine)
        ensures
            res.id == self.id,
            res.name@ == self.name@,
            res.ip@ == self.ip@,
            res.key@ == self.key@,
            res.created == self.created,
            res.updated == self.updated,
    {
        Machine {
            id: self.id,
            name: self.name.clone(),
            ip: self.ip.clone(),
            key: self.key.clone(),
            created: self.created,
            updated: self.updated,
        }
    }
}

impl MachineDetail {
    /// The machine, masked, with the targets it probes.
    pub fn new(machine: &Machine, targets: Vec<Target>) -> (res: MachineDetail)
        ensures
            res.machine.id == machine.id,
            res.machine.name@ == machine.name@,
            res.machine.ip@ == masked_ip(machine.ip@),
            res.machine.created == machine.created,
            res.machine.updated == machine.updated,
            res.targets@ == targets@,
    {
        MachineDetail { machine: machine.duplicate().masked(), targets }
    }
}

impl Target {
    /// The public form: id, name and timestamps.
    pub fn public(self) -> (res: TargetPublic)
        ensures
            res.id == self.id,
            res.name@ == self.name@,
            res.created == self.created,
            res.updated == self.updated,
    {
        TargetPublic { id: self.id, name: self.name, created: self.created, updated: self.updated }
    }

    /// The target a stored record describes.
    pub fn from_record(t: TargetRecord) -> (res: Target)
        ensures
            res.id == t.id,
            res.name@ == t.name@,
            res.domain == t.domain,
            res.ipv4 == t.ipv4,
            res.ipv6 == t.ipv6,
            res.created == t.created,
            res.updated == t.updated,
    {
        Target {
            id: t.id,
            name: t.name,
            domain: t.domain,
            ipv4: t.ipv4,
            ipv6: t.ipv6,
            created: t.created,
            updated: t.updated,
        }
    }
}

impl PingResponse {
    /// The response for a stored ping result.
    pub fn from_record(p: &PingRecord) -> (res: PingResponse)
        ensures
            res.timestamp == p.created,
            res.min == p.min,
            res.avg == p.avg,
            res.fail == p.fail,
    {
        PingResponse { timestamp: p.created, min: p.min, avg: p.avg, fail: p.fail }
    }

    /// The chart form: (timestamp, min, avg, fail).
    pub fn to_data(&self) -> (res: PingData)
        ensures
            res == (self.timestamp, self.min, self.avg, self.fail),
    {
        (self.timestamp, self.min, self.avg, self.fail)
    }
}

} // verus!
