use vstd::prelude::*;

verus! {

/// Time to live, in seconds, of every record built from an upstream answer.
/// The upstream resolver's own time to live is not used.
pub const RECORD_TTL: u32 = 3600;

/// DNS type code of an IPv4 address record.
pub const RECORD_TYPE_A: u16 = 1;

/// DNS type code of an IPv6 address record.
pub const RECORD_TYPE_AAAA: u16 = 28;

/// An address returned by the upstream resolver, in network order as an integer.
#[derive(Clone, Copy, Debug, PartialEq, Eq, Structural)]
pub enum IpAddress {
    V4(u32),
    V6(u128),
}

/// The payload of an address record.
#[derive(Clone, Copy, Debug, PartialEq, Eq, Structural)]
pub enum RecordData {
    A(u32),
    Aaaa(u128),
}

/// A resource record: owner name, time to live and payload.
#[derive(Debug, PartialEq, Eq)]
pub struct ResourceRecord {
    pub owner: String,
    pub ttl: u32,
    pub data: RecordData,
}

pub ghost struct RecordView {
    pub owner: Seq<char>,
    pub ttl: u32,
    pub data: RecordData,
}

impl View for ResourceRecord {
    type V = RecordView;

    open spec fn view(&self) -> RecordView {
        RecordView { owner: self.owner@, ttl: self.ttl, data: self.data }
    }
}

/// The payload that carries an address: A for IPv4, AAAA for IPv6.
pub open spec fn data_for(addr: IpAddress) -> RecordData {
    match addr {
        IpAddress::V4(a) => RecordData::A(a),
        IpAddress::V6(a) => RecordData::Aaaa(a),
    }
}

/// The DNS type code of a payload.
pub open spec fn type_code(data: RecordData) -> u16 {
    match data {
        RecordData::A(_) => RECORD_TYPE_A,
        RecordData::Aaaa(_) => RECORD_TYPE_AAAA,
    }
}

/// The record that answers for `name` with `addr`.
pub open spec fn record_for(name: Seq<char>, addr: IpAddress) -> RecordView {
    RecordView { owner: name, ttl: RECORD_TTL, data: data_for(addr) }
}

/// The records that answer for `name` with `addrs`, one per address, in order.
pub open spec fn records_for(name: Seq<char>, addrs: Seq<IpAddress>) -> Seq<RecordView> {
    addrs.map_values(|a: IpAddress| record_for(name, a))
}

/// The views of a sequence of records.
pub open spec fn records_view(records: Seq<ResourceRecord>) -> Seq<RecordView> {
    records.map_values(|r: ResourceRecord| r@)
}

impl ResourceRecord {
    /// The record for `owner` carrying `addr`, with the fixed time to live.
    pub fn from_address(owner: &String, addr: IpAddress) -> (r: ResourceRecord)
        ensures
            r@ == record_for(owner@, addr),
    {
        let data = match addr {
            IpAddress::V4(a) => RecordData::A(a),
            IpAddress::V6(a) => RecordData::Aaaa(a),
        };
        ResourceRecord { owner: owner.clone(), ttl: RECORD_TTL, data }
    }

    /// The DNS type code of this record's payload.
    pub fn record_type(&self) -> (r: u16)
        ensures
            r == type_code(self.data),
    {
        match self.data {
            RecordData::A(_) => RECORD_TYPE_A,
            RecordData::Aaaa(_) => RECORD_TYPE_AAAA,
        }
    }

    /// A copy of this record.
    pub fn duplicate(&self) -> (r: ResourceRecord)
        ensures
            r == *self,
    {
        ResourceRecord { owner: self.owner.clone(), ttl: self.ttl, data: self.data }
    }
}

/// Builds one record per resolved address, owned by `name`, in the order of
/// the addresses.
pub fn build_records(name: &String, addrs: &Vec<IpAddress>) -> (r: Vec<ResourceRecord>)
    ensures
        records_view(r@) == records_for(name@, addrs@),
{
    let mut out: Vec<ResourceRecord> = Vec::new();
    let mut i: usize = 0;
    while i < addrs.len()
        invariant
            i <= addrs.len(),
            out@.len() == i,
            forall|j: int| 0 <= j < i ==> #[trigger] out@[j]@ == record_for(name@, addrs@[j]),
        decreases addrs.len() - i,
    {
        let rec = ResourceRecord::from_address(name, addrs[i]);
        out.push(rec);
        i = i + 1;
    }
    assert(records_view(out@) =~= records_for(name@, addrs@));
    out
}

/// Copies a sequence of records.
pub fn copy_records(records: &Vec<ResourceRecord>) -> (r: Vec<ResourceRecord>)
    ensures
        r@ == records@,
{
    let mut out: Vec<ResourceRecord> = Vec::new();
    let mut i: usize = 0;
    while i < records.len()
        invariant
            i <= records.len(),
            out@ == records@.subrange(0, i as int),
        decreases records.len() - i,
    {
        let rec = records[i].duplicate();
        out.push(rec);
        i = i + 1;
        assert(out@ =~= records@.subrange(0, i as int));
    }
    assert(out@ =~= records@);
    out
}

} // verus!
