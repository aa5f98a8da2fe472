use syzygy::location::Location;

#[test]
fn location_toml_round_trip() {
    for original in Location::all().iter() {
        let result = Location::from_toml(Some(&original.to_toml()));
        assert_eq!(result, *original);
    }
}

#[test]
fn location_tables() {
    let all = Location::all();
    assert_eq!(all.len(), 38);
    assert_eq!(all[0], Location::TheMap);
    assert_eq!(Location::default(), Location::TheMap);
    assert_eq!(Location::TheMap.name(), "The Map");
    assert_eq!(Location::ColumnAsIcyEm.name(), "Column as Icy `Em");
    assert_eq!(Location::ColumnAsIcyEm.key(), "column_as_icy_em");
    assert_eq!(Location::Prolog.next(), Location::Disconnected);
    assert_eq!(Location::WreckedAngle.next(), Location::ShiftingGround);
    assert_eq!(Location::SystemSyzygy.next(), Location::TheMap);
    assert_eq!(Location::SystemSyzygy.prereqs(), vec![Location::PasswordFile]);
    assert_eq!(Location::Prolog.prereqs(), Vec::<Location>::new());
    assert_eq!(Location::WreckedAngle.prereqs(), vec![Location::Prolog]);
}

#[test]
fn location_keys_differ() {
    let all = Location::all();
    for (i, a) in all.iter().enumerate() {
        for b in all[(i + 1)..].iter() {
            assert_ne!(a.key(), b.key());
        }
    }
}

#[test]
fn location_from_other_values() {
    assert_eq!(Location::from_toml(None), Location::TheMap);
    assert_eq!(Location::from_toml(Some(&toml::Value::Integer(3))), Location::TheMap);
    let unknown = toml::Value::String("nowhere".to_string());
    assert_eq!(Location::from_toml(Some(&unknown)), Location::TheMap);
    let known = toml::Value::String("level_up".to_string());
    assert_eq!(Location::from_toml(Some(&known)), Location::LevelUp);
}
