//! DNS response codes.

use vstd::prelude::*;
use crate::text::spec_upper;

verus! {

/// DNS response code, the closed set the engine distinguishes.
#[derive(Debug, Clone, Copy, PartialEq, Eq, Hash, Structural)]
pub enum ResponseCode {
    /// No error condition
    NoError,
    /// Name server failure
    ServFail,
    /// Name does not exist
    NxDomain,
    /// Query refused
    Refused,
    /// Format error
    FormErr,
    /// Not implemented
    NotImp,
    /// Any other server failure
    ServFailOther,
}

/// The display name of each response code.
pub open spec fn rcode_name_chars(rc: ResponseCode) -> Seq<char> {
    match rc {
        ResponseCode::NoError => "NOERROR"@,
        ResponseCode::ServFail => "SERVFAIL"@,
        ResponseCode::NxDomain => "NXDOMAIN"@,
        ResponseCode::Refused => "REFUSED"@,
        ResponseCode::FormErr => "FORMERR"@,
        ResponseCode::NotImp => "NOTIMP"@,
        ResponseCode::ServFailOther => "SERVFAIL"@,
    }
}

impl ResponseCode {
    /// The display name, e.g. `NXDOMAIN`.
    pub fn to_string(&self) -> (r: String)
        ensures
            r@ == rcode_name_chars(*self),
    {
        match self {
            ResponseCode::NoError => String::from_str("NOERROR"),
            ResponseCode::ServFail => String::from_str("SERVFAIL"),
            ResponseCode::NxDomain => String::from_str("NXDOMAIN"),
            ResponseCode::Refused => String::from_str("REFUSED"),
            ResponseCode::FormErr => String::from_str("FORMERR"),
            ResponseCode::NotImp => String::from_str("NOTIMP"),
            ResponseCode::ServFailOther => String::from_str("SERVFAIL"),
        }
    }

    /// Parses a response-code name, case-insensitively.
    ///
    /// `SERVFAIL` parses to `ServFail`; names that match no code give `None`.
    pub fn parse_name(s: &String) -> (r: Option<ResponseCode>)
        ensures
            match r {
                Some(rc) => rcode_name_chars(rc) == spec_upper(s@),
                None => forall|rc: ResponseCode| rcode_name_chars(rc) != spec_upper(s@),
            },
    {
        let mut up: Vec<char> = Vec::new();
        let n = s.as_str().unicode_len();
        let mut i: usize = 0;
        while i < n
            invariant
                i <= n,
                n == s@.len(),
                up@ =~= spec_upper(s@).take(i as int),
            decreases n - i,
        {
            up.push(crate::text::to_upper_char(s.as_str().get_char(i)));
            i = i + 1;
        }
        proof {
            assert(spec_upper(s@).take(n as int) =~= spec_upper(s@));
        }
        let u = crate::text::string_from_chars(&up);
        if u == String::from_str("NOERROR") {
            Some(ResponseCode::NoError)
        } else if u == String::from_str("SERVFAIL") {
            Some(ResponseCode::ServFail)
        } else if u == String::from_str("NXDOMAIN") {
            Some(ResponseCode::NxDomain)
        } else if u == String::from_str("REFUSED") {
            Some(ResponseCode::Refused)
        } else if u == String::from_str("FORMERR") {
            Some(ResponseCode::FormErr)
        } else if u == String::from_str("NOTIMP") {
            Some(ResponseCode::NotImp)
        } else {
            proof {
                assert forall|rc: ResponseCode| rcode_name_chars(rc) != spec_upper(s@) by {
                    match rc {
                        ResponseCode::NoError => {
                            assert(rcode_name_chars(rc) == "NOERROR"@);
                        },
                        ResponseCode::ServFail => {
                            assert(rcode_name_chars(rc) == "SERVFAIL"@);
                        },
                        ResponseCode::NxDomain => {
                            assert(rcode_name_chars(rc) == "NXDOMAIN"@);
                        },
                        ResponseCode::Refused => {
                            assert(rcode_name_chars(rc) == "REFUSED"@);
                        },
                        ResponseCode::FormErr => {
                            assert(rcode_name_chars(rc) == "FORMERR"@);
                        },
                        ResponseCode::NotImp => {
                            assert(rcode_name_chars(rc) == "NOTIMP"@);
                        },
                        ResponseCode::ServFailOther => {
                            assert(rcode_name_chars(rc) == "SERVFAIL"@);
                        },
                    }
                }
            }
            None
        }
    }
}

/// The response codes a comma-separated filter list names, in order;
/// segments naming no known code are skipped.
pub open spec fn spec_parse_rcodes(gs: Seq<Seq<char>>, idx: int) -> Seq<ResponseCode>
    decreases gs.len() - idx,
{
    if idx < 0 || idx >= gs.len() {
        Seq::empty()
    } else {
        (match display_rcode_of(crate::text::spec_upper(crate::text::spec_trim(gs[idx]))) {
            Some(rc) => seq![rc],
            None => Seq::empty(),
        }) + spec_parse_rcodes(gs, idx + 1)
    }
}

/// The code a display name denotes; `SERVFAIL` denotes the named server
/// failure.
pub open spec fn display_rcode_of(t: Seq<char>) -> Option<ResponseCode> {
    if t == "NOERROR"@ {
        Some(ResponseCode::NoError)
    } else if t == "SERVFAIL"@ {
        Some(ResponseCode::ServFail)
    } else if t == "NXDOMAIN"@ {
        Some(ResponseCode::NxDomain)
    } else if t == "REFUSED"@ {
        Some(ResponseCode::Refused)
    } else if t == "FORMERR"@ {
        Some(ResponseCode::FormErr)
    } else if t == "NOTIMP"@ {
        Some(ResponseCode::NotImp)
    } else {
        None
    }
}

/// Parses a comma-separated response-code filter, case-insensitively and
/// ignoring surrounding whitespace; unknown names are skipped.
pub fn parse_rcodes(rcode_list: &str) -> (r: Vec<ResponseCode>)
    ensures
        r@ == spec_parse_rcodes(
            crate::ip::split_sep(rcode_list@, ',').map_values(|g: Seq<char>| g),
            0,
        ),
{
    let v = crate::text::chars_of_str(rcode_list);
    proof {
        assert(v@.skip(0) =~= v@);
    }
    let groups = crate::ip::split_sep_exec(&v, 0, ',');
    let ghost gs = crate::ip::split_sep(rcode_list@, ',').map_values(|g: Seq<char>| g);
    proof {
        assert(gs =~= crate::ip::split_sep(v@, ','));
    }
    let mut out: Vec<ResponseCode> = Vec::new();
    let mut i: usize = 0;
    proof {
        assert(out@ + spec_parse_rcodes(gs, 0) =~= spec_parse_rcodes(gs, 0));
    }
    while i < groups.len()
        invariant
            i <= groups@.len(),
            gs == crate::ip::split_sep(rcode_list@, ',').map_values(|g: Seq<char>| g),
            groups@.len() == gs.len(),
            forall|j: int| 0 <= j < gs.len() ==> (#[trigger] groups@[j])@ == gs[j],
            out@ + spec_parse_rcodes(gs, i as int) == spec_parse_rcodes(gs, 0),
        decreases groups@.len() - i,
    {
        let g = &groups[i];
        let t = crate::text::trim_range(g, 0, g.len());
        proof {
            assert(g@.subrange(0, g@.len() as int) =~= g@);
        }
        let mut up: Vec<char> = Vec::new();
        let mut k: usize = 0;
        while k < t.len()
            invariant
                k <= t@.len(),
                up@ =~= crate::text::spec_upper(t@).take(k as int),
            decreases t@.len() - k,
        {
            up.push(crate::text::to_upper_char(t[k]));
            k = k + 1;
        }
        proof {
            assert(crate::text::spec_upper(t@).take(t@.len() as int) =~= crate::text::spec_upper(
                t@,
            ));
        }
        let name = crate::text::string_from_chars(&up);
        let ghost pre = out@;
        if name == String::from_str("NOERROR") {
            out.push(ResponseCode::NoError);
        } else if name == String::from_str("SERVFAIL") {
            out.push(ResponseCode::ServFail);
        } else if name == String::from_str("NXDOMAIN") {
            out.push(ResponseCode::NxDomain);
        } else if name == String::from_str("REFUSED") {
            out.push(ResponseCode::Refused);
        } else if name == String::from_str("FORMERR") {
            out.push(ResponseCode::FormErr);
        } else if name == String::from_str("NOTIMP") {
            out.push(ResponseCode::NotImp);
        }
        proof {
            assert(out@ + spec_parse_rcodes(gs, i as int + 1) =~= pre + spec_parse_rcodes(
                gs,
                i as int,
            ));
        }
        i = i + 1;
    }
    proof {
        assert(spec_parse_rcodes(gs, groups@.len() as int) =~= Seq::<ResponseCode>::empty());
        assert(out@ + spec_parse_rcodes(gs, groups@.len() as int) =~= out@);
    }
    out
}

} // verus!
