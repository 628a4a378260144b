//! The statements that store scores in a table and read them back. Nothing
//! here talks to a database: each function gives the text to send.

use vstd::prelude::*;
use vstd::string::*;

use crate::error::Error;
use crate::score::bindings;
use crate::score::schema_text;
use crate::score::statement_text;
use crate::score::Score;
use crate::score::ScoreView;
use crate::score::Value;
use crate::text::decimal;
use crate::text::decimal_string;

verus! {

/// The address of a database on a host.
pub open spec fn address_text(host: Seq<char>, port: nat, db: Seq<char>) -> Seq<char> {
    host + ":"@ + decimal(port) + "/"@ + db
}

/// The locator under which the root account connects to `address`.
pub open spec fn locator_text(password: Seq<char>, address: Seq<char>) -> Seq<char> {
    "mysql://root:"@ + password + "@"@ + address
}

/// The statement that creates `table` unless it exists.
pub open spec fn create_text(table: Seq<char>) -> Seq<char> {
    "CREATE TABLE if not exists "@ + table + " ( "@ + schema_text() + " )"@
}

/// The statement that inserts one score into `table`.
pub open spec fn insert_text(table: Seq<char>) -> Seq<char> {
    "INSERT INTO "@ + table + " "@ + statement_text()
}

/// The query for the scores of `table`, shortest time first, and for the
/// first `count` of them only where a count is given. The limit stands after
/// the order, so it cuts what is already ordered.
pub open spec fn select_text(table: Seq<char>, count: Option<nat>) -> Seq<char> {
    let all = "SELECT language, hash, name, command, time_ns FROM "@ + table
        + " ORDER BY time_ns ASC"@;
    match count {
        Some(n) => all + " LIMIT "@ + decimal(n),
        None => all,
    }
}

/// The statement that drops `table` if it exists.
pub open spec fn drop_text(table: Seq<char>) -> Seq<char> {
    "DROP TABLE IF EXISTS "@ + table
}

/// The statements for one table of scores.
#[derive(Debug)]
pub struct Db {
    table: String,
}

impl View for Db {
    type V = Seq<char>;

    /// The name of the table.
    closed spec fn view(&self) -> Seq<char> {
        self.table@
    }
}

impl Db {
    /// The statements for the table `table`.
    pub fn new(table: &str) -> (r: Self)
        ensures
            r@ == table@,
    {
        Db { table: table.to_owned() }
    }

    /// The address of the database `db` on `host`.
    pub fn address(host: &str, port: u16, db: &str) -> (r: String)
        ensures
            r@ == address_text(host@, port as nat, db@),
    {
        let mut r = host.to_owned();
        r.append(":");
        r.append(decimal_string(port as usize).as_str());
        r.append("/");
        r.append(db);
        r
    }

    /// The locator under which the root account connects to `address`.
    pub fn locator(password: &str, address: &str) -> (r: String)
        ensures
            r@ == locator_text(password@, address@),
    {
        let mut r = "mysql://root:".to_owned();
        r.append(password);
        r.append("@");
        r.append(address);
        r
    }

    /// The statement that creates the table unless it exists.
    pub fn create_table(&self) -> (r: String)
        ensures
            r@ == create_text(self@),
    {
        let mut r = "CREATE TABLE if not exists ".to_owned();
        r.append(self.table.as_str());
        r.append(" ( ");
        r.append(Score::schema().as_str());
        r.append(" )");
        r
    }

    /// What inserts `score`: the statement and the value of each of its
    /// parameters. A score that must not be stored is refused.
    pub fn insert_score(&self, score: &Score) -> (r: Result<(String, Vec<(String, Value)>), Error>)
        ensures
            match r {
                Ok((statement, params)) => score@.flaw() is None && statement@ == insert_text(
                    self@,
                ) && bindings(params@) == score@.parameters(),
                Err(e) => score@.flaw() is Some && e == Error::InvalidScore(score@.flaw()->0),
            },
    {
        match score.validate() {
            Err(e) => Err(e),
            Ok(_) => {
                let (tail, params) = score.as_insert();
                let mut statement = "INSERT INTO ".to_owned();
                statement.append(self.table.as_str());
                statement.append(" ");
                statement.append(tail.as_str());
                Ok((statement, params))
            },
        }
    }

    /// The query for the scores, shortest time first: all of them, or the
    /// first `count`.
    pub fn get_scores(&self, count: Option<usize>) -> (r: String)
        ensures
            r@ == select_text(
                self@,
                match count {
                    Some(n) => Some(n as nat),
                    None => None,
                },
            ),
    {
        let mut r = "SELECT language, hash, name, command, time_ns FROM ".to_owned();
        r.append(self.table.as_str());
        r.append(" ORDER BY time_ns ASC");
        match count {
            Some(n) => {
                r.append(" LIMIT ");
                r.append(decimal_string(n).as_str());
            },
            None => {},
        }
        r
    }

    /// The statement that drops the table if it exists.
    pub fn clear_table(&self) -> (r: String)
        ensures
            r@ == drop_text(self@),
    {
        let mut r = "DROP TABLE IF EXISTS ".to_owned();
        r.append(self.table.as_str());
        r
    }

    /// The score that one row of the query holds, its values in the order in
    /// which the query names the columns.
    pub fn read_row(language: String, hash: String, name: String, command: String, time_ns: u64) -> (r:
        Score)
        ensures
            r@ == (ScoreView {
                name: name@,
                command: command@,
                time_ns,
                hash: hash@,
                language: language@,
            }),
    {
        Score { name, command, time_ns, hash, language }
    }
}

} // verus!
