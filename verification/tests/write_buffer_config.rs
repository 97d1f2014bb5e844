use iox_util::write_buffer_config::{DatabaseRules, WriteBufferConfig, WriteBufferConnection};

type Config = WriteBufferConfig<String, String>;

fn rules(connection: Option<WriteBufferConnection>) -> DatabaseRules {
    DatabaseRules { name: "mydb".to_string(), write_buffer_connection: connection }
}

fn producer(conn: &String, name: &String) -> Result<String, String> {
    if conn.is_empty() {
        Err("no broker".to_string())
    } else {
        Ok(format!("producer of {} at {}", name, conn))
    }
}

fn consumer(conn: &String, server_id: u32, name: &String) -> Result<String, String> {
    Ok(format!("consumer {} of {} at {}", server_id, name, conn))
}

#[test]
fn no_connection_means_no_write_buffer() {
    let r: Result<Option<Config>, String> = WriteBufferConfig::new(1u32, &rules(None), producer, consumer);
    assert!(matches!(r, Ok(None)));
}

#[test]
fn writing_connection_makes_a_producer() {
    let r: Result<Option<Config>, String> = WriteBufferConfig::new(
        1u32,
        &rules(Some(WriteBufferConnection::Writing("kafka:9092".to_string()))),
        producer,
        consumer,
    );
    match r {
        Ok(Some(WriteBufferConfig::Writing(p))) => assert_eq!(p, "producer of mydb at kafka:9092"),
        _ => panic!("expected a producer"),
    }
}

#[test]
fn reading_connection_makes_a_consumer() {
    let r: Result<Option<Config>, String> = WriteBufferConfig::new(
        3u32,
        &rules(Some(WriteBufferConnection::Reading("kafka:9092".to_string()))),
        producer,
        consumer,
    );
    match r {
        Ok(Some(WriteBufferConfig::Reading(c))) => assert_eq!(c, "consumer 3 of mydb at kafka:9092"),
        _ => panic!("expected a consumer"),
    }
}

#[test]
fn errors_in_making_the_buffer_are_returned() {
    let r: Result<Option<Config>, String> = WriteBufferConfig::new(
        1u32,
        &rules(Some(WriteBufferConnection::Writing(String::new()))),
        producer,
        consumer,
    );
    assert!(matches!(r, Err(e) if e == "no broker"));
}
