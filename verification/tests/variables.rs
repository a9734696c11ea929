use punktf::variables::{Variables, Vars};

#[test]
fn later_value_for_a_name_wins() {
    let vars = Variables::from_items(vec![
        ("OS".to_string(), "linux".to_string()),
        ("USER".to_string(), "demo".to_string()),
        ("OS".to_string(), "windows".to_string()),
    ]);
    assert_eq!(vars.var("OS"), Some("windows"));
    assert_eq!(vars.var("USER"), Some("demo"));
    assert_eq!(vars.var("HOME"), None);
    assert_eq!(vars.entries().len(), 2);
}

#[test]
fn insert_then_read() {
    let mut vars = Variables::new();
    vars.insert("A".to_string(), "1".to_string());
    assert_eq!(vars.var("A"), Some("1"));
    vars.insert("A".to_string(), "2".to_string());
    assert_eq!(vars.var("A"), Some("2"));
    let copy = vars.copied();
    assert_eq!(copy.var("A"), Some("2"));
}
