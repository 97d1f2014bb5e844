//! The write buffer of a database: whether, according to the database's
//! rules, the server writes its entries to a buffer, reads them from one, or
//! uses none.
use vstd::prelude::*;

verus! {

/// The write buffer that a database is connected to, by its connection
/// string, and the direction in which entries flow.
pub enum WriteBufferConnection {
    /// This server writes the database's entries to the buffer.
    Writing(String),
    /// This server reads the database's entries from the buffer.
    Reading(String),
}

/// The rules of a database that decide its write buffer.
pub struct DatabaseRules {
    pub name: String,
    pub write_buffer_connection: Option<WriteBufferConnection>,
}

impl DatabaseRules {
    /// The name of the database.
    pub fn db_name(&self) -> (r: &String)
        ensures
            r == &self.name,
    {
        &self.name
    }
}

/// A database's write buffer: a producer that the server writes entries to,
/// or a consumer that it reads entries from.
pub enum WriteBufferConfig<W, R> {
    Writing(W),
    Reading(R),
}

impl<W, R> WriteBufferConfig<W, R> {
    /// Sets up the write buffer that the rules of a database ask for: a
    /// producer for the database, made by `new_producer` from the connection
    /// string and the database's name; a consumer, made by `new_consumer`
    /// from the connection string, the server's identity and the database's
    /// name; or none. An error in making either is returned as it is.
    pub fn new<S, E, P, C>(server_id: S, rules: &DatabaseRules, new_producer: P, new_consumer: C) -> (r:
        Result<Option<Self>, E>) where
        P: FnOnce(&String, &String) -> Result<W, E>,
        C: FnOnce(&String, S, &String) -> Result<R, E>,

        requires
            rules.write_buffer_connection matches Some(WriteBufferConnection::Writing(conn))
                ==> new_producer.requires((&conn, &rules.name)),
            rules.write_buffer_connection matches Some(WriteBufferConnection::Reading(conn))
                ==> new_consumer.requires((&conn, server_id, &rules.name)),
        ensures
            match rules.write_buffer_connection {
                None => r matches Ok(None),
                Some(WriteBufferConnection::Writing(conn)) => exists|made: Result<W, E>|
                    #![trigger new_producer.ensures((&conn, &rules.name), made)]
                    new_producer.ensures((&conn, &rules.name), made) && match made {
                        Ok(w) => r matches Ok(Some(WriteBufferConfig::Writing(x))) && x == w,
                        Err(e) => r matches Err(x) && x == e,
                    },
                Some(WriteBufferConnection::Reading(conn)) => exists|made: Result<R, E>|
                    #![trigger new_consumer.ensures((&conn, server_id, &rules.name), made)]
                    new_consumer.ensures((&conn, server_id, &rules.name), made) && match made {
                        Ok(c) => r matches Ok(Some(WriteBufferConfig::Reading(x))) && x == c,
                        Err(e) => r matches Err(x) && x == e,
                    },
            },
    {
        let name = rules.db_name();
        match &rules.write_buffer_connection {
            Some(WriteBufferConnection::Writing(conn)) => {
                let made = new_producer(conn, name);
                match made {
                    Ok(w) => Ok(Some(WriteBufferConfig::Writing(w))),
                    Err(e) => Err(e),
                }
            },
            Some(WriteBufferConnection::Reading(conn)) => {
                let made = new_consumer(conn, server_id, name);
                match made {
                    Ok(c) => Ok(Some(WriteBufferConfig::Reading(c))),
                    Err(e) => Err(e),
                }
            },
            None => Ok(None),
        }
    }
}

} // verus!
