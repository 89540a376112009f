use packet_io::config::{load_config_from_string, CliConfig, ConfigError};
use packet_io::document::{parse, Node};

#[test]
fn test_load_config_from_string() {
    let yaml_data = r#"
        io:
          queue_size: 1024
          rcv_buf: 4194304
          snd_buf: 4194304
          local: true
          rst: false

        workers:
          count: 4
          queue_size: 64
          tcp_max_buffered_pages_total: 65536
          tcp_max_buffered_pages_per_conn: 16
          tcp_timeout: 600
          udp_max_streams: 4096

        ruleset:
          geoip: "/path/to/geoip"
          geosite: "/path/to/geosite"

        replay:
          realtime: false
        "#;

    // Attempt to load the configuration from the YAML string
    let config = load_config_from_string(yaml_data).expect("Failed to parse YAML");

    assert_eq!(config.io.queue_size, 1024);
    assert_eq!(config.io.rcv_buf, 4194304);
    assert_eq!(config.io.snd_buf, 4194304);
    assert_eq!(config.io.local, true);
    assert_eq!(config.io.rst, false);

    assert_eq!(config.workers.count, 4);
    assert_eq!(config.workers.queue_size, 64);
    assert_eq!(config.workers.tcp_max_buffered_pages_total, 65536);
    assert_eq!(config.workers.tcp_max_buffered_pages_per_conn, 16);
    assert_eq!(config.workers.udp_max_streams, 4096);
    assert_eq!(config.workers.tcp_timeout, 600);

    assert_eq!(config.ruleset.geoip, "/path/to/geoip");
    assert_eq!(config.ruleset.geosite, "/path/to/geosite");

    assert_eq!(config.replay.realtime, false);
}

fn assert_all_defaults(config: &CliConfig) {
    assert_eq!(config.io.queue_size, 1024);
    assert_eq!(config.io.rcv_buf, 4194304);
    assert_eq!(config.io.snd_buf, 4194304);
    assert_eq!(config.io.local, true);
    assert_eq!(config.io.rst, false);
    assert_eq!(config.workers.count, 4);
    assert_eq!(config.workers.queue_size, 64);
    assert_eq!(config.workers.tcp_max_buffered_pages_total, 65536);
    assert_eq!(config.workers.tcp_max_buffered_pages_per_conn, 16);
    assert_eq!(config.workers.tcp_timeout, 600);
    assert_eq!(config.workers.udp_max_streams, 4096);
    assert_eq!(config.ruleset.geoip, "./geoip");
    assert_eq!(config.ruleset.geosite, "./geosite");
    assert_eq!(config.replay.realtime, false);
}

#[test]
fn default_config_holds_the_documented_values() {
    assert_all_defaults(&CliConfig::default());
}

#[test]
fn only_worker_count_set_keeps_other_defaults() {
    let config = load_config_from_string("workers:\n  count: 8\n").unwrap();
    assert_eq!(config.workers.count, 8);
    assert_eq!(config.workers.queue_size, 64);
    assert_eq!(config.workers.tcp_timeout, 600);
    assert_eq!(config.workers.udp_max_streams, 4096);
    assert_eq!(config.workers.tcp_max_buffered_pages_total, 65536);
    assert_eq!(config.workers.tcp_max_buffered_pages_per_conn, 16);
    assert_eq!(config.io.queue_size, 1024);
    assert_eq!(config.ruleset.geoip, "./geoip");
}

#[test]
fn empty_document_gives_all_defaults() {
    let config = load_config_from_string("").unwrap();
    assert_eq!(config.io.local, true);
    assert_eq!(config.io.rst, false);
    assert_eq!(config.ruleset.geoip, "./geoip");
    assert_all_defaults(&config);
}

#[test]
fn document_of_comments_gives_all_defaults() {
    assert_all_defaults(&load_config_from_string("# nothing set\n").unwrap());
    assert_all_defaults(&load_config_from_string("{}").unwrap());
    assert_all_defaults(&load_config_from_string("~").unwrap());
}

#[test]
fn empty_group_gives_its_defaults() {
    let config = load_config_from_string("workers:\nio: {}\nreplay: ~\n").unwrap();
    assert_all_defaults(&config);
}

#[test]
fn numbers_may_be_written_as_strings() {
    let config = load_config_from_string(
        "io:\n  queue_size: \"2048\"\n  rcv_buf: \"-1\"\n  snd_buf: '+7'\nworkers:\n  tcp_timeout: \"18446744073709551615\"\n",
    )
    .unwrap();
    assert_eq!(config.io.queue_size, 2048);
    assert_eq!(config.io.rcv_buf, -1);
    assert_eq!(config.io.snd_buf, 7);
    assert_eq!(config.workers.tcp_timeout, u64::MAX);
}

#[test]
fn negative_buffer_sizes_are_read() {
    let config = load_config_from_string("io:\n  rcv_buf: -2147483648\n  snd_buf: 2147483647\n").unwrap();
    assert_eq!(config.io.rcv_buf, i32::MIN);
    assert_eq!(config.io.snd_buf, i32::MAX);
}

#[test]
fn flags_and_paths_are_overridden() {
    let config = load_config_from_string(
        "io:\n  local: false\n  rst: true\nreplay:\n  realtime: true\nruleset:\n  geosite: /srv/geosite.dat\n",
    )
    .unwrap();
    assert_eq!(config.io.local, false);
    assert_eq!(config.io.rst, true);
    assert_eq!(config.replay.realtime, true);
    assert_eq!(config.ruleset.geoip, "./geoip");
    assert_eq!(config.ruleset.geosite, "/srv/geosite.dat");
}

#[test]
fn unknown_groups_and_fields_are_ignored() {
    let config = load_config_from_string(
        "extra: [1, 2, 3]\nworkers:\n  count: 2\n  colour: blue\n",
    )
    .unwrap();
    assert_eq!(config.workers.count, 2);
    assert_eq!(config.workers.queue_size, 64);
}

#[test]
fn broken_yaml_is_a_syntax_error() {
    assert_eq!(load_config_from_string("io: [1, 2").err(), Some(ConfigError::Syntax));
    assert_eq!(load_config_from_string("a: 1\n---\nb: 2\n").err(), Some(ConfigError::Syntax));
}

#[test]
fn document_that_is_no_mapping_is_refused() {
    assert_eq!(load_config_from_string("- 1\n- 2\n").err(), Some(ConfigError::NotAMapping));
    assert_eq!(load_config_from_string("42").err(), Some(ConfigError::NotAMapping));
}

#[test]
fn group_that_is_no_mapping_is_refused() {
    assert_eq!(load_config_from_string("workers: 5\n").err(), Some(ConfigError::InvalidGroup));
    assert_eq!(load_config_from_string("io: [a, b]\n").err(), Some(ConfigError::InvalidGroup));
}

#[test]
fn field_of_the_wrong_kind_is_refused() {
    assert_eq!(
        load_config_from_string("workers:\n  count: many\n").err(),
        Some(ConfigError::InvalidValue)
    );
    assert_eq!(
        load_config_from_string("workers:\n  count: 1.5\n").err(),
        Some(ConfigError::InvalidValue)
    );
    assert_eq!(load_config_from_string("io:\n  local: 1\n").err(), Some(ConfigError::InvalidValue));
    assert_eq!(
        load_config_from_string("ruleset:\n  geoip: [x]\n").err(),
        Some(ConfigError::InvalidValue)
    );
    assert_eq!(load_config_from_string("workers:\n  count:\n").err(), Some(ConfigError::InvalidValue));
}

#[test]
fn number_out_of_range_is_refused() {
    assert_eq!(
        load_config_from_string("io:\n  queue_size: 4294967296\n").err(),
        Some(ConfigError::InvalidValue)
    );
    assert_eq!(
        load_config_from_string("io:\n  queue_size: -1\n").err(),
        Some(ConfigError::InvalidValue)
    );
    assert_eq!(
        load_config_from_string("io:\n  queue_size: \"-0\"\n").err(),
        Some(ConfigError::InvalidValue)
    );
    assert_eq!(
        load_config_from_string("io:\n  rcv_buf: 2147483648\n").err(),
        Some(ConfigError::InvalidValue)
    );
    assert_eq!(load_config_from_string("io:\n  queue_size: 4294967295\n").unwrap().io.queue_size, u32::MAX);
}

#[test]
fn invalid_group_is_reported_before_invalid_value() {
    assert_eq!(
        load_config_from_string("io:\n  local: 3\nreplay: 7\n").err(),
        Some(ConfigError::InvalidGroup)
    );
}

#[test]
fn parse_turns_yaml_into_plain_nodes() {
    let doc = parse("a: 1\nb: [true, ~, x]\n").unwrap();
    match doc {
        Node::Table(entries) => {
            assert_eq!(entries.len(), 2);
            assert!(matches!(&entries[0].0, Node::Text(k) if k == "a"));
            assert!(matches!(&entries[0].1, Node::Number(n) if n == "1"));
            match &entries[1].1 {
                Node::List(items) => {
                    assert_eq!(items.len(), 3);
                    assert!(matches!(items[0], Node::Bool(true)));
                    assert!(matches!(items[1], Node::Null));
                    assert!(matches!(&items[2], Node::Text(s) if s == "x"));
                }
                other => panic!("not a list: {:?}", other),
            }
        }
        other => panic!("not a table: {:?}", other),
    }
    assert!(parse(": : :\n  - [").is_none());
}
