use lanspeedd::config::{list_value, scalar_value, ConfigError, ConfigValue};

#[test]
fn a_scalar_option_reads_its_text_or_nothing() {
    let text = scalar_value(Ok(Some(ConfigValue::Text("1000".to_string()))), "refresh_interval_ms");
    assert_eq!(text, Ok(Some("1000".to_string())));
    assert_eq!(scalar_value(Ok(None), "refresh_interval_ms"), Ok(None));
}

#[test]
fn a_list_where_a_scalar_belongs_is_a_type_error() {
    let error = scalar_value(
        Ok(Some(ConfigValue::List(vec!["a".to_string(), "b".to_string()]))),
        "max_clients",
    )
    .unwrap_err();
    assert_eq!(
        error,
        ConfigError::WrongType { option: "max_clients".to_string(), expected: "a string" }
    );
}

#[test]
fn a_source_error_passes_through_both_readers() {
    let failure = ConfigError::Source("uci unavailable".to_string());
    assert_eq!(scalar_value(Err(failure.clone()), "ifname"), Err(failure.clone()));
    assert_eq!(list_value(Err(failure.clone())), Err(failure));
}

#[test]
fn a_list_option_accepts_a_single_value_as_a_list_of_one() {
    assert_eq!(
        list_value(Ok(Some(ConfigValue::Text("br-lan".to_string())))),
        Ok(vec!["br-lan".to_string()])
    );
    assert_eq!(
        list_value(Ok(Some(ConfigValue::List(vec!["br-lan".to_string(), "wlan0".to_string()])))),
        Ok(vec!["br-lan".to_string(), "wlan0".to_string()])
    );
    assert_eq!(list_value(Ok(None)), Ok(Vec::<String>::new()));
}

use lanspeedd::config::{
    config_option_keys, ConfigSource, InterfaceEligibility, RuntimeConfig, CONFIG_OPTION_COUNT,
};
use std::collections::BTreeMap;

struct MapSource {
    values: BTreeMap<String, ConfigValue>,
    asked: Vec<String>,
    fail_on: Option<String>,
}

impl ConfigSource for MapSource {
    fn get(&mut self, path: &str) -> Result<Option<ConfigValue>, ConfigError> {
        self.asked.push(path.to_string());
        if self.fail_on.as_deref() == Some(path) {
            return Err(ConfigError::Source("busy".to_string()));
        }
        Ok(self.values.get(path).cloned())
    }
}

struct Everything {
    asked: std::cell::RefCell<Vec<String>>,
}

impl InterfaceEligibility for Everything {
    fn is_collect_eligible(&self, name: &str) -> bool {
        self.asked.borrow_mut().push(name.to_string());
        true
    }
}

fn source(entries: &[(&str, ConfigValue)]) -> MapSource {
    let mut values = BTreeMap::new();
    for (key, value) in entries {
        values.insert(format!("lanspeed.main.{key}"), value.clone());
    }
    MapSource { values, asked: Vec::new(), fail_on: None }
}

#[test]
fn the_option_keys_come_scalars_first_then_lists() {
    let keys = config_option_keys();
    assert_eq!(keys.len(), CONFIG_OPTION_COUNT);
    assert_eq!(keys[0], "refresh_interval_ms");
    assert_eq!(keys[4], "max_clients");
    assert_eq!(keys[9], "enable_conntrack_fallback");
    assert_eq!(keys[10], "ifname");
    assert_eq!(keys[13], "observe");
}

#[test]
fn load_reads_every_option_in_key_order_and_asks_eligibility_after_the_name_checks() {
    let mut src = source(&[
        ("refresh_interval_ms", ConfigValue::Text("2000".to_string())),
        (
            "ifname",
            ConfigValue::List(vec!["br-lan".to_string(), "nssifb".to_string(), "wan".to_string()]),
        ),
    ]);
    let eligibility = Everything { asked: std::cell::RefCell::new(Vec::new()) };
    let config = RuntimeConfig::load(&mut src, &eligibility).unwrap();
    let expected: Vec<String> =
        config_option_keys().iter().map(|k| format!("lanspeed.main.{k}")).collect();
    assert_eq!(src.asked, expected);
    assert_eq!(config.refresh_interval_ms, 2000);
    assert_eq!(config.ifnames, vec!["br-lan".to_string()]);
    assert!(config.rejected_nssifb_collect);
    assert_eq!(*eligibility.asked.borrow(), vec!["br-lan".to_string()]);
}

#[test]
fn load_stops_at_the_first_failing_answer() {
    let mut src = source(&[("max_clients", ConfigValue::List(vec!["1".to_string()]))]);
    src.fail_on = Some("lanspeed.main.observe".to_string());
    let eligibility = Everything { asked: std::cell::RefCell::new(Vec::new()) };
    let error = RuntimeConfig::load(&mut src, &eligibility).err().unwrap();
    assert_eq!(
        error,
        ConfigError::WrongType { option: "max_clients".to_string(), expected: "a string" }
    );
    assert_eq!(src.asked.len(), 5);
    assert!(eligibility.asked.borrow().is_empty());
}

#[test]
fn reload_installs_the_loaded_configuration_and_keeps_the_old_one_on_error() {
    let eligibility = Everything { asked: std::cell::RefCell::new(Vec::new()) };
    let mut config =
        RuntimeConfig::load(&mut source(&[]), &eligibility).unwrap();
    let mut src = source(&[("refresh_interval_ms", ConfigValue::Text("5000".to_string()))]);
    config.reload(&mut src, &eligibility).unwrap();
    assert_eq!(config.refresh_interval_ms, 5000);
    let mut failing = source(&[]);
    failing.fail_on = Some("lanspeed.main.ifname".to_string());
    assert_eq!(
        config.reload(&mut failing, &eligibility),
        Err(ConfigError::Source("busy".to_string()))
    );
    assert_eq!(config.refresh_interval_ms, 5000);
}

#[test]
fn answers_build_the_configuration_or_the_first_error() {
    let mut answers: Vec<Result<Option<ConfigValue>, ConfigError>> =
        (0..CONFIG_OPTION_COUNT).map(|_| Ok(None)).collect();
    answers[1] = Ok(Some(ConfigValue::Text("1".to_string())));
    let config = RuntimeConfig::from_answers(answers, &Vec::new()).unwrap();
    assert!(config.active_client_window_clamped);
    let mut failing: Vec<Result<Option<ConfigValue>, ConfigError>> =
        (0..CONFIG_OPTION_COUNT).map(|_| Ok(None)).collect();
    failing[12] = Err(ConfigError::Source("late".to_string()));
    failing[3] = Ok(Some(ConfigValue::List(Vec::new())));
    assert_eq!(
        RuntimeConfig::from_answers(failing, &Vec::new()).err().unwrap(),
        ConfigError::WrongType { option: "overview_window_samples".to_string(), expected: "a string" }
    );
}

#[test]
fn a_reload_holds_what_a_load_of_the_same_answers_gives() {
    let eligibility = Everything { asked: std::cell::RefCell::new(Vec::new()) };
    let entries = [
        ("refresh_interval_ms", ConfigValue::Text("1500".to_string())),
        ("max_clients", ConfigValue::Text("12".to_string())),
        ("ifname", ConfigValue::List(vec!["br-lan".to_string(), "wlan0".to_string()])),
        ("observe", ConfigValue::Text("lan2".to_string())),
    ];
    let loaded = RuntimeConfig::load(&mut source(&entries), &eligibility).unwrap();
    let mut config = RuntimeConfig::load(&mut source(&[]), &eligibility).unwrap();
    config.reload(&mut source(&entries), &eligibility).unwrap();
    assert_eq!(config, loaded);
}
