//! What is stored of sessions, and what comes back of them.
use vstd::prelude::*;

use crate::session::Session;

verus! {

/// A session in the database.
#[derive(Debug)]
pub struct SessionRow {
    /// Identifies the session.
    pub id: String,
    /// Its name.
    pub name: String,
    /// Its directory.
    pub cwd: String,
    /// Its layout as text, empty where it could not be written.
    pub layout_snapshot: String,
    /// When the row was written, in Unix milliseconds.
    pub last_snapshot_timestamp: i64,
}

/// What is stored of a session. `layout` is its layout as text, where it could be written.
pub fn snapshot_row(session: &Session, layout: Option<String>, now: i64) -> (row: SessionRow)
    ensures
        row.id@ == session.id@,
        row.name@ == session.name@,
        row.cwd@ == session.cwd@,
        row.layout_snapshot@ == (match layout {
            Some(text) => text@,
            None => Seq::empty(),
        }),
        row.last_snapshot_timestamp == now,
{
    SessionRow {
        id: session.id.clone(),
        name: session.name.clone(),
        cwd: session.cwd.clone(),
        layout_snapshot: match layout {
            Some(text) => text,
            None => String::new(),
        },
        last_snapshot_timestamp: now,
    }
}

/// The sessions of some rows, in their order. Tabs, panes and clients do not come back.
pub fn recover_sessions(rows: &Vec<SessionRow>) -> (sessions: Vec<Session>)
    ensures
        sessions@.len() == rows@.len(),
        forall|i: int|
            0 <= i < rows@.len() ==> (#[trigger] sessions@[i]).is_fresh(
                rows@[i].id@,
                rows@[i].name@,
                rows@[i].cwd@,
            ),
{
    let mut sessions: Vec<Session> = Vec::new();
    let mut i: usize = 0;
    while i < rows.len()
        invariant
            i <= rows@.len(),
            sessions@.len() == i,
            forall|k: int|
                0 <= k < i ==> (#[trigger] sessions@[k]).is_fresh(
                    rows@[k].id@,
                    rows@[k].name@,
                    rows@[k].cwd@,
                ),
        decreases rows@.len() - i,
    {
        sessions.push(
            Session::new(rows[i].id.clone(), rows[i].name.clone(), rows[i].cwd.clone()),
        );
        i += 1;
    }
    sessions
}

} // verus!
