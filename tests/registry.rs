use federation_specs::connect::{connect_versions, ConnectSpecDefinition};
use federation_specs::cost::{cost_versions, CostSpecDefinition};
use federation_specs::error::FederationError;
use federation_specs::spec_definition::{SpecDefinition, SpecDefinitions};
use federation_specs::version::{Identity, Version};

fn v(major: u32, minor: u32) -> Version {
    Version { major, minor }
}

#[test]
fn cost_registry_holds_its_release() {
    let reg = cost_versions();
    let d = reg.find(&v(0, 1)).unwrap();
    assert_eq!(d.url().version, v(0, 1));
    assert_eq!(d.url().identity.name, "cost");
    assert_eq!(d.minimum_federation_version(), Some(v(2, 9)));
    assert!(reg.find(&v(0, 2)).is_none());
}

#[test]
fn connect_registry_holds_its_release() {
    let reg = connect_versions();
    let d = reg.find(&v(0, 1)).unwrap();
    assert_eq!(d.url().identity.name, "connect");
    assert_eq!(d.minimum_federation_version(), Some(v(2, 8)));
}

#[test]
fn add_refuses_duplicates_and_strangers() {
    let mut reg: SpecDefinitions<CostSpecDefinition> = SpecDefinitions::new(Identity::cost_identity());
    assert_eq!(reg.add(CostSpecDefinition::new(v(0, 1), None)), Ok(()));
    assert_eq!(
        reg.add(CostSpecDefinition::new(v(0, 1), Some(v(2, 9)))),
        Err(FederationError::InvalidSpecRegistration)
    );
    let mut other: SpecDefinitions<ConnectSpecDefinition> = SpecDefinitions::new(Identity::cost_identity());
    assert_eq!(
        other.add(ConnectSpecDefinition::new(v(0, 1), None)),
        Err(FederationError::InvalidSpecRegistration)
    );
    assert_eq!(reg.definitions.len(), 1);
    assert_eq!(other.definitions.len(), 0);
}

#[test]
fn lookups_stay_stable_as_versions_are_added() {
    let mut reg: SpecDefinitions<CostSpecDefinition> = SpecDefinitions::new(Identity::cost_identity());
    reg.add(CostSpecDefinition::new(v(0, 1), Some(v(2, 9)))).unwrap();
    let first = reg.find(&v(0, 1)).unwrap().minimum_federation_version();
    for minor in 2..6 {
        reg.add(CostSpecDefinition::new(v(0, minor), None)).unwrap();
        let _ = reg.find(&v(0, minor));
        assert_eq!(reg.find(&v(0, 1)).unwrap().minimum_federation_version(), first);
        assert_eq!(reg.find(&v(0, 1)).unwrap().url().version, v(0, 1));
    }
}

#[test]
fn find_satisfying_picks_highest_minor() {
    let mut reg: SpecDefinitions<CostSpecDefinition> = SpecDefinitions::new(Identity::cost_identity());
    reg.add(CostSpecDefinition::new(v(0, 3), None)).unwrap();
    reg.add(CostSpecDefinition::new(v(0, 1), None)).unwrap();
    reg.add(CostSpecDefinition::new(v(1, 0), None)).unwrap();
    reg.add(CostSpecDefinition::new(v(0, 2), None)).unwrap();
    assert_eq!(reg.find_satisfying(&v(0, 2)).unwrap().url().version, v(0, 3));
    assert_eq!(reg.find_satisfying(&v(1, 0)).unwrap().url().version, v(1, 0));
    assert!(reg.find_satisfying(&v(0, 4)).is_none());
    assert!(reg.find_satisfying(&v(2, 0)).is_none());
}
