//! Reading `rpi.toml`.
use rpi::config::{parse_config, ConfigError, ConfigErrorKind};
use rpi::model::Config;

fn err(line: usize, kind: ConfigErrorKind) -> Result<Config, ConfigError> {
    Err(ConfigError { line, kind })
}

#[test]
fn empty_file_keeps_defaults() {
    assert_eq!(parse_config(""), Ok(Config::default()));
    assert_eq!(parse_config("\n\n   \n# nothing\n"), Ok(Config::default()));
}

#[test]
fn readme_example() {
    let text = "module_size_loc = 300       # LOC warning threshold per file\n\
                pub_surface_warn = 50       # public items warning threshold per crate\n\
                unsafe_density_warn = 5.0   # unsafe/kLOC warning threshold\n";
    assert_eq!(parse_config(text), Ok(Config::default()));
}

#[test]
fn every_threshold_can_be_set() {
    let text = "module_size_loc=10\r\n\tpub_surface_warn =  7 \ncomplexity_warn = 3\n\
                coupling_warn = 4\nchurn_warn = 5\nunsafe_density_warn = 0.25";
    assert_eq!(
        parse_config(text),
        Ok(Config {
            module_size_loc: 10,
            pub_surface_warn: 7,
            unsafe_density_warn_milli: 250,
            complexity_warn: 3,
            coupling_warn: 4,
            churn_warn: 5,
        })
    );
}

#[test]
fn density_in_thousandths() {
    let milli = |v: &str| parse_config(&format!("unsafe_density_warn = {v}")).map(|c| c.unsafe_density_warn_milli);
    assert_eq!(milli("5"), Ok(5000));
    assert_eq!(milli("5.1"), Ok(5100));
    assert_eq!(milli("5.12"), Ok(5120));
    assert_eq!(milli("0.001"), Ok(1));
    assert_eq!(milli("12.345"), Ok(12345));
    assert_eq!(milli("1.2345"), err(1, ConfigErrorKind::BadValue).map(|c| c.unsafe_density_warn_milli));
    assert_eq!(milli("1."), err(1, ConfigErrorKind::BadValue).map(|c| c.unsafe_density_warn_milli));
    assert_eq!(milli(".5"), err(1, ConfigErrorKind::BadValue).map(|c| c.unsafe_density_warn_milli));
    assert_eq!(milli("-1.0"), err(1, ConfigErrorKind::BadValue).map(|c| c.unsafe_density_warn_milli));
}

#[test]
fn later_lines_override_earlier_ones() {
    let c = parse_config("module_size_loc = 1\nmodule_size_loc = 2\n").unwrap();
    assert_eq!(c.module_size_loc, 2);
}

#[test]
fn unknown_keys_are_ignored() {
    assert_eq!(parse_config("colour = \"blue\"\nmodule_size_loc = 9"), Ok(Config { module_size_loc: 9, ..Default::default() }));
}

#[test]
fn bad_lines_are_reported_by_number() {
    assert_eq!(parse_config("module_size_loc = 1\n[table]\n"), err(2, ConfigErrorKind::NotKeyValue));
    assert_eq!(parse_config("\n\n = 3"), err(3, ConfigErrorKind::NotKeyValue));
    assert_eq!(parse_config("churn_warn = ten"), err(1, ConfigErrorKind::BadValue));
    assert_eq!(parse_config("churn_warn ="), err(1, ConfigErrorKind::BadValue));
    assert_eq!(parse_config("a = 1\nchurn_warn = 1.5"), err(2, ConfigErrorKind::BadValue));
    assert_eq!(
        parse_config("coupling_warn = 99999999999999999999999"),
        err(1, ConfigErrorKind::BadValue)
    );
    // The first bad line stops the reading.
    assert_eq!(parse_config("x\nchurn_warn = z"), err(1, ConfigErrorKind::NotKeyValue));
}

#[test]
fn unnamed_thresholds_keep_defaults() {
    let c = parse_config("# only one override\ncoupling_warn = 2\n").unwrap();
    let d = Config::default();
    assert_eq!(c.coupling_warn, 2);
    assert_eq!(
        (c.module_size_loc, c.pub_surface_warn, c.unsafe_density_warn_milli, c.complexity_warn, c.churn_warn),
        (d.module_size_loc, d.pub_surface_warn, d.unsafe_density_warn_milli, d.complexity_warn, d.churn_warn)
    );
}
