//! Writing storage entries as the records of a `top` object, for prefixes
//! given as hexadecimal literals only.

use crate::prefix::{all_valid, literal_prefixes, reports_first_invalid};
use crate::prefix::{ConfigError, PrefixSet};
use crate::to_hex_snap::{export_lines, exported, pairs, Entry};
use crate::views::texts;
use vstd::prelude::*;

verus! {

/// Configurations for [`to_json`].
#[derive(Debug, Clone)]
pub struct ToJsonCommand {
    /// The pallets whose entries are kept. Pallets are not supported yet:
    /// the list has to be empty.
    pub pallet: Vec<String>,
    /// The key prefixes whose entries are kept, as hexadecimal text without a
    /// leading `0x`. With no prefix every entry is kept.
    pub prefix: Vec<String>,
    /// The path of the snapshot to read.
    pub snapshot_path: String,
    /// The path of the file to write.
    pub output_path: String,
}

/// Writes the records of `entries` as `command` says: those of the entries
/// whose key begins with a prefix of the command, or of all entries where the
/// command has no prefix. Fails on a literal prefix that is not hexadecimal
/// text. The command names no pallet.
pub fn to_json(command: &ToJsonCommand, entries: &Vec<Entry>) -> (r: Result<
    Vec<String>,
    ConfigError,
>)
    requires
        command.pallet@.len() == 0,
    ensures
        r is Ok <==> all_valid(texts(command.prefix@)),
        r matches Ok(lines) ==> texts(lines@) == exported(
            pairs(entries@),
            literal_prefixes(texts(command.prefix@)),
        ),
        r matches Err(e) ==> reports_first_invalid(e, texts(command.prefix@)),
{
    match PrefixSet::resolve(&command.prefix, &command.pallet) {
        Err(e) => Err(e),
        Ok(prefixes) => {
            assert(prefixes@ =~= literal_prefixes(texts(command.prefix@)));
            Ok(export_lines(&prefixes, entries))
        },
    }
}

} // verus!
