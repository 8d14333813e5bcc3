use minikafka::config::ConfigStruct;

#[test]
fn test_settings_new_with_default_run_mode() {
    let settings = ConfigStruct::new();
    assert!(settings.is_ok());
    match settings {
        Ok(cfg) => {
            let _ = cfg.broker.host;
            assert_eq!(cfg.storage.segment_size, 1048576);
        }
        Err(e) => {
            println!("error: {:?}", e);
        }
    }
}

#[test]
fn test_load_config() {
    let config = ConfigStruct::new().expect("Failed to load config");

    println!("ID: {}", config.broker.id);
    println!("host: {}", config.broker.host);
    println!("port: {}", config.broker.port);
    println!("network threads: {}", config.broker.num_network_threads);
    println!("io threads: {}", config.broker.num_io_threads);
    println!("send buffer: {} bytes", config.broker.socket_send_buffer_bytes);
    println!("receive buffer: {} bytes", config.broker.socket_receive_buffer_bytes);
    println!("max request: {} bytes", config.broker.socket_request_max_bytes);
    println!("default partitions: {}", config.broker.num_partitions);
    println!("default replication: {}", config.broker.default_replication_factor);
    println!("coordinator: {}", config.broker.zookeeper_connect);
    println!("log retention: {} hours", config.broker.log_retention_hours);
    println!("segment bytes: {}", config.broker.log_segment_bytes);
    println!("group min session timeout: {} ms", config.broker.group_min_session_timeout_ms);
    println!("group max session timeout: {} ms", config.broker.group_max_session_timeout_ms);

    println!("log dir: {}", config.storage.log_dir);
    println!("segment size: {} bytes", config.storage.segment_size);
    println!("flush interval: {} ms", config.storage.flush_interval_ms);
    println!("auto create topics: {}", config.storage.auto_create_topics_enable);
    println!("delete topics: {}", config.storage.delete_topic_enable);
    println!("compression: {}", config.storage.compression_type);
    println!("max message: {} bytes", config.storage.message_max_bytes);
    println!("background threads: {}", config.storage.num_background_threads);
    println!("replica fetch max: {} bytes", config.storage.replica_fetch_max_bytes);
    println!("replica socket timeout: {} ms", config.storage.replica_socket_timeout_ms);
}

#[test]
fn test_default_values_pinned() {
    let config = ConfigStruct::new().unwrap();
    assert_eq!(config.broker.id, 1);
    assert_eq!(config.broker.host, "127.0.0.1");
    assert_eq!(config.broker.port, 9092);
    assert_eq!(config.broker.num_partitions, 3);
    assert_eq!(config.broker.log_retention_bytes, -1);
    assert_eq!(config.storage.log_dir, "/var/lib/rust_kafka");
    assert_eq!(config.storage.compression_type, "producer");
    assert_eq!(config.storage.replica_lag_max_messages, 4000);
}
