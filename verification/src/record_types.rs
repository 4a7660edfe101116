//! DNS record types: the closed enumeration of query classes the engine
//! accepts, with their names and name parsing.

use vstd::prelude::*;
use crate::text::{spec_upper, to_upper_char, string_from_chars};

verus! {

/// DNS record types.
#[derive(Debug, Clone, Copy, PartialEq, Eq, Hash, Structural)]
pub enum RecordType {
    /// A record (IPv4 address)
    A,
    /// AAAA record (IPv6 address)
    Aaaa,
    /// CNAME record (canonical name)
    Cname,
    /// MX record (mail exchange)
    Mx,
    /// TXT record (text)
    Txt,
    /// NS record (name server)
    Ns,
    /// SOA record (start of authority)
    Soa,
    /// PTR record (pointer/reverse DNS)
    Ptr,
    /// SRV record (service)
    Srv,
    /// AFSDB record
    Afsdb,
    /// CAA record (Certification Authority Authorization)
    Caa,
    /// CERT record (certificate)
    Cert,
    /// DNAME record (delegation name)
    Dname,
    /// DNSKEY record (DNSSEC key)
    Dnskey,
    /// DS record (delegation signer)
    Ds,
    /// HINFO record (host information)
    Hinfo,
    /// HTTPS record
    Https,
    /// KEY record
    Key,
    /// LOC record (location)
    Loc,
    /// NAPTR record (naming authority pointer)
    Naptr,
    /// NSEC record (DNSSEC)
    Nsec,
    /// NSEC3 record (DNSSEC)
    Nsec3,
    /// OPT record (EDNS options)
    Opt,
    /// RRSIG record (DNSSEC signature)
    Rrsig,
    /// SSHFP record (SSH fingerprint)
    Sshfp,
    /// SVCB record (service binding)
    Svcb,
    /// TLSA record (TLSA certificate association)
    Tlsa,
    /// URI record (uniform resource identifier)
    Uri,
}

/// The canonical (uppercase) name of each record type.
pub open spec fn type_name_chars(rt: RecordType) -> Seq<char> {
    match rt {
        RecordType::A => "A"@,
        RecordType::Aaaa => "AAAA"@,
        RecordType::Cname => "CNAME"@,
        RecordType::Mx => "MX"@,
        RecordType::Txt => "TXT"@,
        RecordType::Ns => "NS"@,
        RecordType::Soa => "SOA"@,
        RecordType::Ptr => "PTR"@,
        RecordType::Srv => "SRV"@,
        RecordType::Afsdb => "AFSDB"@,
        RecordType::Caa => "CAA"@,
        RecordType::Cert => "CERT"@,
        RecordType::Dname => "DNAME"@,
        RecordType::Dnskey => "DNSKEY"@,
        RecordType::Ds => "DS"@,
        RecordType::Hinfo => "HINFO"@,
        RecordType::Https => "HTTPS"@,
        RecordType::Key => "KEY"@,
        RecordType::Loc => "LOC"@,
        RecordType::Naptr => "NAPTR"@,
        RecordType::Nsec => "NSEC"@,
        RecordType::Nsec3 => "NSEC3"@,
        RecordType::Opt => "OPT"@,
        RecordType::Rrsig => "RRSIG"@,
        RecordType::Sshfp => "SSHFP"@,
        RecordType::Svcb => "SVCB"@,
        RecordType::Tlsa => "TLSA"@,
        RecordType::Uri => "URI"@,
    }
}

/// All record types, in declaration order.
pub open spec fn all_record_types() -> Seq<RecordType> {
    seq![
        RecordType::A,
        RecordType::Aaaa,
        RecordType::Cname,
        RecordType::Mx,
        RecordType::Txt,
        RecordType::Ns,
        RecordType::Soa,
        RecordType::Ptr,
        RecordType::Srv,
        RecordType::Afsdb,
        RecordType::Caa,
        RecordType::Cert,
        RecordType::Dname,
        RecordType::Dnskey,
        RecordType::Ds,
        RecordType::Hinfo,
        RecordType::Https,
        RecordType::Key,
        RecordType::Loc,
        RecordType::Naptr,
        RecordType::Nsec,
        RecordType::Nsec3,
        RecordType::Opt,
        RecordType::Rrsig,
        RecordType::Sshfp,
        RecordType::Svcb,
        RecordType::Tlsa,
        RecordType::Uri,
    ]
}

impl RecordType {
    /// Every supported record type, in declaration order.
    pub fn all() -> (r: Vec<RecordType>)
        ensures
            r@ == all_record_types(),
    {
        let mut v: Vec<RecordType> = Vec::new();
        v.push(RecordType::A);
        v.push(RecordType::Aaaa);
        v.push(RecordType::Cname);
        v.push(RecordType::Mx);
        v.push(RecordType::Txt);
        v.push(RecordType::Ns);
        v.push(RecordType::Soa);
        v.push(RecordType::Ptr);
        v.push(RecordType::Srv);
        v.push(RecordType::Afsdb);
        v.push(RecordType::Caa);
        v.push(RecordType::Cert);
        v.push(RecordType::Dname);
        v.push(RecordType::Dnskey);
        v.push(RecordType::Ds);
        v.push(RecordType::Hinfo);
        v.push(RecordType::Https);
        v.push(RecordType::Key);
        v.push(RecordType::Loc);
        v.push(RecordType::Naptr);
        v.push(RecordType::Nsec);
        v.push(RecordType::Nsec3);
        v.push(RecordType::Opt);
        v.push(RecordType::Rrsig);
        v.push(RecordType::Sshfp);
        v.push(RecordType::Svcb);
        v.push(RecordType::Tlsa);
        v.push(RecordType::Uri);
        proof {
            assert(v@ =~= all_record_types());
        }
        v
    }

    /// The canonical uppercase name, e.g. `AAAA`.
    pub fn to_string(&self) -> (r: String)
        ensures
            r@ == type_name_chars(*self),
    {
        match self {
            RecordType::A => String::from_str("A"),
            RecordType::Aaaa => String::from_str("AAAA"),
            RecordType::Cname => String::from_str("CNAME"),
            RecordType::Mx => String::from_str("MX"),
            RecordType::Txt => String::from_str("TXT"),
            RecordType::Ns => String::from_str("NS"),
            RecordType::Soa => String::from_str("SOA"),
            RecordType::Ptr => String::from_str("PTR"),
            RecordType::Srv => String::from_str("SRV"),
            RecordType::Afsdb => String::from_str("AFSDB"),
            RecordType::Caa => String::from_str("CAA"),
            RecordType::Cert => String::from_str("CERT"),
            RecordType::Dname => String::from_str("DNAME"),
            RecordType::Dnskey => String::from_str("DNSKEY"),
            RecordType::Ds => String::from_str("DS"),
            RecordType::Hinfo => String::from_str("HINFO"),
            RecordType::Https => String::from_str("HTTPS"),
            RecordType::Key => String::from_str("KEY"),
            RecordType::Loc => String::from_str("LOC"),
            RecordType::Naptr => String::from_str("NAPTR"),
            RecordType::Nsec => String::from_str("NSEC"),
            RecordType::Nsec3 => String::from_str("NSEC3"),
            RecordType::Opt => String::from_str("OPT"),
            RecordType::Rrsig => String::from_str("RRSIG"),
            RecordType::Sshfp => String::from_str("SSHFP"),
            RecordType::Svcb => String::from_str("SVCB"),
            RecordType::Tlsa => String::from_str("TLSA"),
            RecordType::Uri => String::from_str("URI"),
        }
    }

    /// Parses a record-type name, case-insensitively.
    ///
    /// Returns the type whose canonical name equals the uppercased input, and
    /// `None` when no supported type matches: unsupported names are rejected
    /// at request time, never substituted.
    pub fn parse_name(s: &str) -> (r: Option<RecordType>)
        ensures
            match r {
                Some(rt) => spec_upper(s@) == type_name_chars(rt),
                None => forall|rt: RecordType| spec_upper(s@) != type_name_chars(rt),
            },
    {
        let n = s.unicode_len();
        let mut up: Vec<char> = Vec::new();
        let mut i: usize = 0;
        while i < n
            invariant
                i <= n,
                n == s@.len(),
                up@ =~= spec_upper(s@).take(i as int),
            decreases n - i,
        {
            up.push(to_upper_char(s.get_char(i)));
            i = i + 1;
        }
        proof {
            assert(spec_upper(s@).take(n as int) =~= spec_upper(s@));
        }
        let u = string_from_chars(&up);
        let all = RecordType::all();
        let mut k: usize = 0;
        while k < all.len()
            invariant
                k <= all@.len(),
                all@ == all_record_types(),
                u@ == spec_upper(s@),
                forall|j: int| 0 <= j < k ==> spec_upper(s@) != type_name_chars(
                    #[trigger] all@[j],
                ),
            decreases all@.len() - k,
        {
            let rt = all[k];
            if u == rt.to_string() {
                return Some(rt);
            }
            k = k + 1;
        }
        proof {
            assert forall|rt: RecordType| spec_upper(s@) != type_name_chars(rt) by {
                match rt {
                    RecordType::A => {
                        assert(all_record_types()[0] == rt);
                    },
                    RecordType::Aaaa => {
                        assert(all_record_types()[1] == rt);
                    },
                    RecordType::Cname => {
                        assert(all_record_types()[2] == rt);
                    },
                    RecordType::Mx => {
                        assert(all_record_types()[3] == rt);
                    },
                    RecordType::Txt => {
                        assert(all_record_types()[4] == rt);
                    },
                    RecordType::Ns => {
                        assert(all_record_types()[5] == rt);
                    },
                    RecordType::Soa => {
                        assert(all_record_types()[6] == rt);
                    },
                    RecordType::Ptr => {
                        assert(all_record_types()[7] == rt);
                    },
                    RecordType::Srv => {
                        assert(all_record_types()[8] == rt);
                    },
                    RecordType::Afsdb => {
                        assert(all_record_types()[9] == rt);
                    },
                    RecordType::Caa => {
                        assert(all_record_types()[10] == rt);
                    },
                    RecordType::Cert => {
                        assert(all_record_types()[11] == rt);
                    },
                    RecordType::Dname => {
                        assert(all_record_types()[12] == rt);
                    },
                    RecordType::Dnskey => {
                        assert(all_record_types()[13] == rt);
                    },
                    RecordType::Ds => {
                        assert(all_record_types()[14] == rt);
                    },
                    RecordType::Hinfo => {
                        assert(all_record_types()[15] == rt);
                    },
                    RecordType::Https => {
                        assert(all_record_types()[16] == rt);
                    },
                    RecordType::Key => {
                        assert(all_record_types()[17] == rt);
                    },
                    RecordType::Loc => {
                        assert(all_record_types()[18] == rt);
                    },
                    RecordType::Naptr => {
                        assert(all_record_types()[19] == rt);
                    },
                    RecordType::Nsec => {
                        assert(all_record_types()[20] == rt);
                    },
                    RecordType::Nsec3 => {
                        assert(all_record_types()[21] == rt);
                    },
                    RecordType::Opt => {
                        assert(all_record_types()[22] == rt);
                    },
                    RecordType::Rrsig => {
                        assert(all_record_types()[23] == rt);
                    },
                    RecordType::Sshfp => {
                        assert(all_record_types()[24] == rt);
                    },
                    RecordType::Svcb => {
                        assert(all_record_types()[25] == rt);
                    },
                    RecordType::Tlsa => {
                        assert(all_record_types()[26] == rt);
                    },
                    RecordType::Uri => {
                        assert(all_record_types()[27] == rt);
                    },
                }
            }
        }
        None
    }
}

} // verus!
