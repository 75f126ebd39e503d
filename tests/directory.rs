use campaigns::campaign::{Campaign, CampaignId, MemberId};
use campaigns::directory::{CampaignState, DuplicateNameError};
use campaigns::name::{CampaignName, ValidationError};
use campaigns::storage::{LocalEngine, MissingState, Storage, TryDefault};

fn name(s: &str) -> CampaignName {
    CampaignName::new(s).unwrap()
}

fn campaign(id: u64, n: &str, leader: u64, others: &[u64]) -> Campaign {
    let mut c = Campaign::new(name(n), MemberId(leader), CampaignId(id));
    let extra: Vec<MemberId> = others.iter().map(|m| MemberId(*m)).collect();
    c.add_members(&extra);
    c
}

fn member_ids(c: &Campaign) -> Vec<u64> {
    let mut v: Vec<u64> = c.members().iter().map(|m| m.0).collect();
    v.sort();
    v
}

#[test]
fn new_campaign_has_only_its_leader() {
    let c = Campaign::new(name("Alpha"), MemberId(7), CampaignId(1));
    assert_eq!(member_ids(&c), vec![7]);
    assert_eq!(c.leader(), MemberId(7));
    assert_eq!(c.id(), CampaignId(1));
    assert_eq!(c.name().as_str(), "Alpha");
    assert!(c.has_member(MemberId(7)));
}

#[test]
fn add_member_twice_changes_nothing() {
    let mut c = Campaign::new(name("Alpha"), MemberId(7), CampaignId(1));
    c.add_member(MemberId(8));
    c.add_member(MemberId(8));
    c.add_member(MemberId(7));
    assert_eq!(member_ids(&c), vec![7, 8]);
}

#[test]
fn leader_stays_after_adding_members() {
    let mut c = Campaign::new(name("Alpha"), MemberId(1), CampaignId(1));
    c.add_members(&[MemberId(2), MemberId(3), MemberId(2), MemberId(1)]);
    assert!(c.has_member(c.leader()));
    assert_eq!(member_ids(&c), vec![1, 2, 3]);
}

#[test]
fn name_is_trimmed() {
    let n = name("   Alpha team  ");
    assert_eq!(n.as_str(), "Alpha team");
}

#[test]
fn name_trims_unicode_white_space() {
    let n = name("\u{3000}\tAlpha one\u{a0}\n");
    assert_eq!(n.as_str(), "Alpha one");
}

#[test]
fn name_too_short() {
    assert!(matches!(CampaignName::new("  Beta "), Err(ValidationError::TooShort)));
}

#[test]
fn name_too_long() {
    let long = "a".repeat(31);
    assert!(matches!(CampaignName::new(&long), Err(ValidationError::TooLong)));
    assert!(CampaignName::new(&"a".repeat(30)).is_ok());
    assert!(CampaignName::new("abcde").is_ok());
}

#[test]
fn name_not_ascii() {
    assert!(matches!(CampaignName::new("Équipe"), Err(ValidationError::NotAscii)));
}

#[test]
fn validate_trimmed_checks_without_trimming() {
    assert_eq!(CampaignName::validate_trimmed("Alpha"), Ok(()));
    assert_eq!(CampaignName::validate_trimmed(" abc "), Ok(()));
    assert_eq!(CampaignName::validate_trimmed("abc"), Err(ValidationError::TooShort));
    assert_eq!(CampaignName::validate_trimmed("Équipe"), Err(ValidationError::NotAscii));
}

#[test]
fn upsert_fills_all_three_indices() {
    let mut d = CampaignState::new();
    assert_eq!(d.upsert_campaign(campaign(1, "Alpha", 10, &[11])), Ok(()));
    assert!(d.get(CampaignId(1)).is_some());
    assert_eq!(d.lookup_name(&name("Alpha")), Some(CampaignId(1)));
    assert!(d.is_linked(MemberId(10), CampaignId(1)));
    assert!(d.is_linked(MemberId(11), CampaignId(1)));
    assert!(!d.is_linked(MemberId(12), CampaignId(1)));
    assert_eq!(d.campaigns_of(MemberId(11)).map(|s| s.len()), Some(1));
}

#[test]
fn upsert_twice_matches_upsert_once() {
    let mut once = CampaignState::new();
    once.upsert_campaign(campaign(1, "Alpha", 10, &[11])).unwrap();
    let mut twice = CampaignState::new();
    twice.upsert_campaign(campaign(1, "Alpha", 10, &[11])).unwrap();
    twice.upsert_campaign(campaign(1, "Alpha", 10, &[11])).unwrap();
    assert_eq!(twice.to_records().len(), once.to_records().len());
    assert_eq!(twice.lookup_name(&name("Alpha")), Some(CampaignId(1)));
    for m in [10u64, 11] {
        assert_eq!(twice.campaigns_of(MemberId(m)), once.campaigns_of(MemberId(m)));
    }
    assert_eq!(member_ids(twice.get(CampaignId(1)).unwrap()), vec![10, 11]);
}

#[test]
fn rename_frees_the_old_name() {
    let mut d = CampaignState::new();
    d.upsert_campaign(campaign(1, "Alpha", 10, &[])).unwrap();
    d.upsert_campaign(campaign(1, "Bravo", 10, &[])).unwrap();
    assert_eq!(d.lookup_name(&name("Alpha")), None);
    assert_eq!(d.lookup_name(&name("Bravo")), Some(CampaignId(1)));
    assert_eq!(d.to_records().len(), 1);
    // the freed name can be taken by another campaign
    assert_eq!(d.upsert_campaign(campaign(2, "Alpha", 20, &[])), Ok(()));
}

#[test]
fn duplicate_name_is_rejected_and_nothing_changes() {
    let mut d = CampaignState::new();
    d.upsert_campaign(campaign(1, "Alpha", 10, &[11])).unwrap();
    let r = d.upsert_campaign(campaign(2, "Alpha", 20, &[21]));
    assert_eq!(r, Err(DuplicateNameError { conflicting: CampaignId(1) }));
    assert!(d.get(CampaignId(2)).is_none());
    assert_eq!(d.lookup_name(&name("Alpha")), Some(CampaignId(1)));
    assert!(d.campaigns_of(MemberId(20)).is_none());
    assert!(d.campaigns_of(MemberId(21)).is_none());
    assert!(d.is_linked(MemberId(11), CampaignId(1)));
    assert_eq!(d.to_records().len(), 1);
}

#[test]
fn replacing_members_moves_back_references() {
    let (a, b, c) = (100u64, 200u64, 300u64);
    let mut d = CampaignState::new();
    d.upsert_campaign(campaign(1, "Alpha", a, &[b])).unwrap();
    d.upsert_campaign(campaign(1, "Alpha", b, &[c])).unwrap();
    assert!(!d.is_linked(MemberId(a), CampaignId(1)));
    assert!(d.campaigns_of(MemberId(a)).is_none());
    assert!(d.is_linked(MemberId(b), CampaignId(1)));
    assert!(d.is_linked(MemberId(c), CampaignId(1)));
}

#[test]
fn shared_member_keeps_other_campaigns() {
    let mut d = CampaignState::new();
    d.upsert_campaign(campaign(1, "Alpha", 5, &[])).unwrap();
    d.upsert_campaign(campaign(2, "Bravo", 5, &[])).unwrap();
    assert_eq!(d.campaigns_of(MemberId(5)).map(|s| s.len()), Some(2));
    d.upsert_campaign(campaign(1, "Alpha", 6, &[])).unwrap();
    assert!(!d.is_linked(MemberId(5), CampaignId(1)));
    assert!(d.is_linked(MemberId(5), CampaignId(2)));
}

#[test]
fn records_rebuild_the_directory() {
    let mut d = CampaignState::new();
    d.upsert_campaign(campaign(1, "Alpha", 10, &[11, 12])).unwrap();
    d.upsert_campaign(campaign(2, "Bravo", 11, &[13])).unwrap();
    d.upsert_campaign(campaign(1, "Charlie", 10, &[12])).unwrap();
    let records = d.to_records();
    d.clear();
    assert!(d.get(CampaignId(1)).is_none());
    assert_eq!(d.lookup_name(&name("Charlie")), None);
    let e = CampaignState::from_records(&records).unwrap();
    assert_eq!(e.to_records().len(), 2);
    assert_eq!(member_ids(e.get(CampaignId(1)).unwrap()), vec![10, 12]);
    assert_eq!(member_ids(e.get(CampaignId(2)).unwrap()), vec![11, 13]);
    assert_eq!(e.lookup_name(&name("Charlie")), Some(CampaignId(1)));
    assert_eq!(e.lookup_name(&name("Bravo")), Some(CampaignId(2)));
    assert_eq!(e.lookup_name(&name("Alpha")), None);
    assert!(e.is_linked(MemberId(11), CampaignId(2)));
    assert!(!e.is_linked(MemberId(11), CampaignId(1)));
    assert_eq!(e.campaigns_of(MemberId(12)).map(|s| s.len()), Some(1));
}

#[test]
fn replay_stops_at_a_taken_name() {
    let records = vec![campaign(1, "Alpha", 10, &[]), campaign(2, "Alpha", 20, &[])];
    let r = CampaignState::from_records(&records);
    assert!(matches!(r, Err(DuplicateNameError { conflicting: CampaignId(1) })));
}

#[test]
fn default_directory_is_empty() {
    let d = CampaignState::default();
    assert!(d.to_records().is_empty());
    assert!(d.campaigns_of(MemberId(1)).is_none());
}

#[test]
fn local_engine_file_path() {
    let engine = LocalEngine::new("data".to_string());
    let p = engine.resolve_filepath("campaigns");
    assert_eq!(p, format!("data{}campaigns..json", std::path::MAIN_SEPARATOR));
}

#[test]
fn storage_keeps_its_engine() {
    let s = Storage::new(Some(LocalEngine::new("state".to_string())));
    assert!(s.local_engine().is_some());
    assert!(Storage::new(None).local_engine().is_none());
}

struct NoDefault;

impl TryDefault for NoDefault {}

#[test]
fn try_default_without_a_default() {
    assert!(matches!(NoDefault::try_default(), Err(MissingState)));
}

#[test]
fn try_default_of_a_default_type() {
    let v: Result<Vec<u8>, MissingState> = <Vec<u8> as TryDefault>::try_default();
    assert_eq!(v, Ok(Vec::new()));
}
