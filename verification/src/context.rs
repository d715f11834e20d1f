//! The input record of one evaluation: user, session, address, application,
//! environment, time and free-form properties.
use vstd::prelude::*;
use crate::ipaddr;
use crate::ipaddr::IpValue;
use crate::strutil;

verus! {

/// An address in a context: the parsed value and its canonical text.
pub struct IPAddress {
    pub ip: IpValue,
    pub text: String,
}

impl IPAddress {
    /// Parses an address of either family; the stored text is canonical.
    pub fn parse(s: &str) -> (r: Option<IPAddress>)
        ensures
            match ipaddr::spec_parse_ip(s@) {
                Some(ip) => r matches Some(a) && a.ip == ip && a.text@ == ipaddr::spec_ip_text(ip)
                    && ipaddr::ip_wf(a.ip),
                None => r is None,
            },
    {
        match ipaddr::parse_ip(s) {
            Some(ip) => Some(IPAddress { ip, text: ipaddr::ip_text(&ip) }),
            None => None,
        }
    }
}

/// The evaluation context. The timestamp is milliseconds since the epoch;
/// callers that want wall-clock time fill it in before evaluating.
pub struct Context {
    pub user_id: Option<String>,
    pub session_id: Option<String>,
    pub remote_address: Option<IPAddress>,
    pub properties: Vec<(String, String)>,
    pub app_name: String,
    pub environment: String,
    pub current_time: Option<i64>,
}

impl Default for Context {
    /// The empty context.
    fn default() -> (r: Context)
        ensures
            r.user_id is None,
            r.session_id is None,
            r.remote_address is None,
            r.properties@.len() == 0,
            r.app_name@.len() == 0,
            r.environment@.len() == 0,
            r.current_time is None,
    {
        Context {
            user_id: None,
            session_id: None,
            remote_address: None,
            properties: Vec::new(),
            app_name: String::new(),
            environment: String::new(),
            current_time: None,
        }
    }
}

/// The ghost view of a property list.
pub open spec fn props_view(props: Seq<(String, String)>) -> Seq<(Seq<char>, Seq<char>)> {
    props.map_values(|p: (String, String)| (p.0@, p.1@))
}

/// First-match lookup in an association list.
pub open spec fn spec_assoc_get(
    entries: Seq<(Seq<char>, Seq<char>)>,
    key: Seq<char>,
) -> Option<Seq<char>>
    decreases entries.len(),
{
    if entries.len() == 0 {
        None
    } else if entries[0].0 == key {
        Some(entries[0].1)
    } else {
        spec_assoc_get(entries.drop_first(), key)
    }
}

/// First-match lookup, per `spec_assoc_get`.
pub fn assoc_get<'a>(entries: &'a Vec<(String, String)>, key: &str) -> (r: Option<&'a String>)
    ensures
        match r {
            Some(v) => spec_assoc_get(props_view(entries@), key@) == Some(v@),
            None => spec_assoc_get(props_view(entries@), key@) is None,
        },
{
    let ghost ev = props_view(entries@);
    let mut i: usize = 0;
    proof {
        assert(ev.skip(0) =~= ev);
    }
    while i < entries.len()
        invariant
            0 <= i <= entries@.len(),
            ev == props_view(entries@),
            spec_assoc_get(ev, key@) == spec_assoc_get(ev.skip(i as int), key@),
        decreases entries@.len() - i,
    {
        proof {
            assert(ev.skip(i as int).len() == ev.len() - i);
            assert(ev.skip(i as int)[0] == ev[i as int]);
            assert(ev.skip(i as int).drop_first() =~= ev.skip(i as int + 1));
        }
        if strutil::str_eq(entries[i].0.as_str(), key) {
            return Some(&entries[i].1);
        }
        i += 1;
    }
    None
}

/// The view of an optional string.
pub open spec fn opt_str_view(o: Option<String>) -> Option<Seq<char>> {
    match o {
        Some(s) => Some(s@),
        None => None,
    }
}

} // verus!
