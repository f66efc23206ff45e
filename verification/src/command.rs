pub mod create_table;
pub mod error;
pub mod insert;
pub mod select;

use vstd::prelude::*;

verus! {

use crate::command::create_table::{create_table, spec_create_cmd};
use crate::command::error::{spec_cmd_message, CmdErrV, CmdError};
use crate::command::insert::{insert, spec_insert_cmd};
use crate::command::select::{select, spec_select_cmd};
use crate::connection::frame::{Frame, FrameV};
use crate::db::catalog::{Db, DbV};
use crate::parse::ast::{Command, CommandV};
use crate::parse::spec_sql;

/// What one statement does to the catalog, and the frame it answers
/// with: the parsed command dispatched to its executor, every
/// statement-level failure carried back as an error frame.
pub open spec fn spec_run(d: DbV, s: Seq<u8>) -> (DbV, FrameV) {
    match spec_sql(s) {
        Err(msg) => (d, FrameV::Error(msg)),
        Ok(cmd) => match cmd {
            CommandV::Select { key, table } => (
                d,
                match spec_select_cmd(d, key, table) {
                    Ok(f) => f,
                    Err(e) => FrameV::Error(spec_cmd_message(e)),
                },
            ),
            CommandV::Insert { table, cols, rows } => {
                let (d2, res) = spec_insert_cmd(d, table, cols, rows);
                (
                    d2,
                    match res {
                        Ok(f) => f,
                        Err(e) => FrameV::Error(spec_cmd_message(e)),
                    },
                )
            },
            CommandV::CreateTable { name, def } => {
                let (d2, res) = spec_create_cmd(d, name, def);
                (
                    d2,
                    match res {
                        Ok(f) => f,
                        Err(e) => FrameV::Error(spec_cmd_message(e)),
                    },
                )
            },
        },
    }
}

/// Lexes, parses and executes one SQL statement against the catalog,
/// and answers with exactly one frame; the connection-facing entry of
/// the query pipeline.
pub fn run_cmd(db: &mut Db, stream: Vec<u8>) -> (r: Frame)
    requires
        old(db)@.wf(),
    ensures
        final(db)@.wf(),
        ({
            let (d2, f) = spec_run(old(db)@, stream@);
            final(db)@.names == d2.names && final(db)@.tables == d2.tables && r@ == f
        }),
{
    let cmd = match crate::parse::parse(stream) {
        Ok(c) => c,
        Err(msg) => {
            return Frame::Error(msg);
        },
    };
    let res = match cmd {
        Command::Select { key, table } => select(db, key, table),
        Command::Insert { table, cols, rows } => insert(db, table, cols, rows),
        Command::CreateTable { name, def } => create_table(db, name, def),
    };
    match res {
        Ok(f) => f,
        Err(e) => Frame::Error(e.message()),
    }
}

} // verus!
