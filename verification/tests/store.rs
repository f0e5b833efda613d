use carpenter::record::{FieldDescriptor, FieldType, Value};
use carpenter::store::{ConfigFactory, ConfigPath};
use carpenter::ConfigError;

fn field(name: &str, ty: FieldType) -> FieldDescriptor {
    FieldDescriptor { name: String::from(name), ty }
}

fn demo_shape() -> Vec<FieldDescriptor> {
    vec![
        field("a", FieldType::I32),
        field("b", FieldType::Bool),
        field("c", FieldType::Text),
    ]
}

fn demo_record() -> Vec<Value> {
    vec![
        Value::I32(400),
        Value::Bool(true),
        Value::Text(String::from("Hey")),
    ]
}

#[test]
fn init_config_binds_the_names() {
    let factory = ConfigFactory::init_config("meloencoding", "config-rs-test", "test.bin", demo_shape())
        .expect("a configuration directory should resolve here");
    assert_eq!(factory.username, "meloencoding");
    assert_eq!(factory.application_name, "config-rs-test");
    assert_eq!(factory.config_name, "test.bin");
    assert_eq!(factory.shape, demo_shape());
    assert!(!factory.path.is_empty());
}

#[test]
fn config_file_path_joins_directory_and_name() {
    let factory = ConfigFactory::init_config("meloencoding", "config-rs-test", "test.bin", demo_shape())
        .expect("a configuration directory should resolve here");
    let full = factory.config_file_path();
    let mut expected = factory.path.clone();
    expected.push('/');
    expected.push_str(&factory.config_name);
    assert_eq!(full, expected);
    assert!(full.ends_with("/test.bin"));
}

#[test]
fn config_path_matches_factory_directory() {
    let cp = ConfigPath::new("meloencoding", "config-rs-test")
        .expect("a configuration directory should resolve here");
    let factory = ConfigFactory::init_config("meloencoding", "config-rs-test", "test.bin", demo_shape())
        .expect("a configuration directory should resolve here");
    assert_eq!(cp.inner, factory.path);
}

#[test]
fn save_twice_load_once_yields_the_record() {
    // the store's effect on the file is its encoded buffer; saving twice
    // writes the same bytes, and loading them yields the record back
    let factory = ConfigFactory::init_config("meloencoding", "config-rs-test", "test.bin", demo_shape())
        .expect("a configuration directory should resolve here");
    let record = demo_record();
    assert!(factory.fits(&record));
    let first_save = factory.to_bytes(&record);
    let second_save = factory.to_bytes(&record);
    assert_eq!(first_save, second_save);
    let loaded = factory.from_bytes(&second_save).unwrap();
    assert_eq!(loaded, record);
}

#[test]
fn load_of_short_file_reports_truncated_input() {
    let factory = ConfigFactory::init_config("meloencoding", "config-rs-test", "test.bin", demo_shape())
        .expect("a configuration directory should resolve here");
    let bytes = vec![0u8, 0, 1];
    assert_eq!(factory.from_bytes(&bytes), Err(ConfigError::TruncatedInput));
}

#[test]
fn fits_rejects_a_record_of_another_shape() {
    let factory = ConfigFactory::init_config("meloencoding", "config-rs-test", "test.bin", demo_shape())
        .expect("a configuration directory should resolve here");
    let wrong = vec![Value::Bool(true), Value::I32(400), Value::Text(String::new())];
    assert!(!factory.fits(&wrong));
}
