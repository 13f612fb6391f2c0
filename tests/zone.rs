use dnsfuzz::zone::{
    LookupCode, Zone, ZoneRecord, RTYPE_A, RTYPE_AAAA, RTYPE_CNAME, RTYPE_NS, RTYPE_SOA,
};

fn name(s: &str) -> Vec<String> {
    s.split('.').filter(|l| !l.is_empty()).map(|l| l.to_string()).collect()
}

fn rec(owner: &str, rtype: u16, target: &str) -> ZoneRecord {
    ZoneRecord { owner: name(owner), rtype, ns_target: name(target) }
}

fn zone() -> Zone {
    Zone {
        origin: name("fuzz."),
        records: vec![
            rec("fuzz.", RTYPE_SOA, ""),
            rec("fuzz.", RTYPE_NS, "ns.fuzz."),
            rec("ns.fuzz.", RTYPE_A, ""),
            rec("www.fuzz.", RTYPE_A, ""),
            rec("alias.fuzz.", RTYPE_CNAME, ""),
            rec("*.wild.fuzz.", RTYPE_A, ""),
            rec("sub.fuzz.", RTYPE_NS, "ns.fuzz."),
        ],
    }
}

#[test]
fn exact_answers_and_cname() {
    let z = zone();
    let r = z.lookup(&name("www.fuzz."), RTYPE_A);
    assert_eq!((r.code, r.answers, r.authority), (LookupCode::NoError, vec![3], vec![]));
    let r = z.lookup(&name("alias.fuzz."), RTYPE_A);
    assert_eq!(r.answers, vec![4]);
}

#[test]
fn nodata_and_nxdomain_carry_the_soa() {
    let z = zone();
    let r = z.lookup(&name("www.fuzz."), RTYPE_AAAA);
    assert_eq!((r.code, r.answers, r.authority), (LookupCode::NoError, vec![], vec![0]));
    let r = z.lookup(&name("nope.fuzz."), RTYPE_A);
    assert_eq!((r.code, r.authority), (LookupCode::NXDomain, vec![0]));
    let r = z.lookup(&name("other.zone."), RTYPE_A);
    assert_eq!((r.code, r.authority), (LookupCode::ServFail, vec![0]));
}

#[test]
fn wildcards_and_delegations() {
    let z = zone();
    let r = z.lookup(&name("x.wild.fuzz."), RTYPE_A);
    assert_eq!((r.code, r.answers), (LookupCode::NoError, vec![5]));
    let r = z.lookup(&name("a.sub.fuzz."), RTYPE_A);
    assert_eq!((r.code, r.answers, r.authority, r.additionals), (LookupCode::NoError, vec![], vec![6], vec![2]));
    assert_eq!(z.lookup_exact(&name("wild.fuzz.")), Some(vec![]));
    assert_eq!(z.lookup_exact(&name("none.fuzz.")), None);
}
