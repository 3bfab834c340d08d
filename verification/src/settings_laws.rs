//! What settings come to: lists, numbers, and what the environment overrides.
use vstd::prelude::*;

use crate::cluster::endpoint_text;
use crate::node_config::{
    bool_override, default_settings, listed_addresses, number_override, settings_error,
    settings_overridden, with_schemes, EnvOverrides, NodeSettings,
};
use crate::selection::{picks, picks_alike, picks_next, picks_none};
use crate::settings::{kept_pieces, list_items, number_setting, parsed_bool};
use crate::text::{parsed_unsigned, split_text, trimmed};

verus! {

proof fn pieces_are_kept(pieces: Seq<Seq<char>>)
    ensures
        picks(
            kept_pieces(pieces),
            pieces.len() as int,
            |k: int| trimmed(pieces[k]).len() > 0,
            |k: int| trimmed(pieces[k]),
        ),
    decreases pieces.len(),
{
    let wanted = |k: int| trimmed(pieces[k]).len() > 0;
    let value = |k: int| trimmed(pieces[k]);
    let n = pieces.len() as int;
    if n == 0 {
        picks_none(wanted, value);
    } else {
        let rest = pieces.drop_last();
        pieces_are_kept(rest);
        picks_alike(
            kept_pieces(rest),
            n - 1,
            |k: int| trimmed(rest[k]).len() > 0,
            |k: int| trimmed(rest[k]),
            wanted,
            value,
        );
        picks_next(kept_pieces(rest), n - 1, wanted, value);
    }
}

/// The items of a list are, in order and trimmed, exactly those pieces between
/// its commas that are more than white space.
pub proof fn a_list_has_an_item_for_every_piece(text: Seq<char>)
    ensures
        picks(
            list_items(text),
            split_text(text, ',').len() as int,
            |k: int| trimmed(split_text(text, ',')[k]).len() > 0,
            |k: int| trimmed(split_text(text, ',')[k]),
        ),
{
    pieces_are_kept(split_text(text, ','));
}

/// A list of addresses has an address for every piece between its commas, each
/// in its place, trimmed and with a scheme.
pub proof fn every_piece_is_an_address(text: Seq<char>)
    ensures
        listed_addresses(text).len() == split_text(text, ',').len(),
        forall|k: int|
            0 <= k < listed_addresses(text).len() ==> #[trigger] listed_addresses(text)[k]
                == endpoint_text(trimmed(split_text(text, ',')[k])),
{
}

/// Every address gets a scheme, in its place.
pub proof fn every_address_gets_a_scheme(addresses: Seq<Seq<char>>)
    ensures
        with_schemes(addresses).len() == addresses.len(),
        forall|k: int|
            0 <= k < addresses.len() ==> #[trigger] with_schemes(addresses)[k] == endpoint_text(
                addresses[k],
            ),
{
}

/// A number that is set counts where it can be read; otherwise it counts as not
/// set, and what was there before stays.
pub proof fn a_number_counts_where_it_can_be_read(
    text: Seq<char>,
    set: Option<String>,
    max: nat,
    before: nat,
)
    ensures
        number_setting(None, max) is None,
        number_setting(Some(text), max) == parsed_unsigned(text, max),
        set is None ==> number_override(set, max, before) == before,
        set matches Some(t) ==> match parsed_unsigned(t@, max) {
            Some(n) => number_override(set, max, before) == n,
            None => number_override(set, max, before) == before,
        },
{
}

/// Only `true` and `false` are truth values; anything else that is set leaves
/// what was there before.
pub proof fn a_truth_value_is_true_or_false(text: Seq<char>, set: Option<String>, before: bool)
    ensures
        parsed_bool("true"@) == Some(true),
        parsed_bool("false"@) == Some(false),
        parsed_bool(text) is Some ==> text == "true"@ || text == "false"@,
        set is None ==> bool_override(set, before) == before,
        set matches Some(t) ==> {
            &&& t@ == "true"@ ==> bool_override(set, before)
            &&& t@ == "false"@ ==> !bool_override(set, before)
            &&& t@ != "true"@ && t@ != "false"@ ==> bool_override(set, before) == before
        },
{
    reveal_strlit("true");
    reveal_strlit("false");
    assert("true"@.len() != "false"@.len());
}

/// Each thing that the environment says overrides its own setting and no other;
/// what it does not say, and what cannot be read, leaves the setting as it is.
pub proof fn the_environment_overrides_setting_by_setting(c: NodeSettings, env: EnvOverrides)
    ensures
        ({
            let after = settings_overridden(c, env);
            &&& env.metadata_urls is None ==> after.metadata_addresses == c.metadata_addresses
            &&& env.metadata_urls matches Some(t) ==> after.metadata_addresses == listed_addresses(
                t@,
            )
            &&& env.grpc_port is None ==> after.port == c.port
            &&& env.grpc_port matches Some(t) ==> match parsed_unsigned(t@, 65535) {
                Some(n) => after.port == n,
                None => after.port == c.port,
            }
            &&& env.metrics_port is None ==> after.metrics_port == c.metrics_port
            &&& env.metrics_port matches Some(t) ==> match parsed_unsigned(t@, 65535) {
                Some(n) => after.metrics_port == n,
                None => after.metrics_port == c.metrics_port,
            }
            &&& env.allocated_slots is None ==> after.allocated_slots == c.allocated_slots
            &&& env.allocated_slots matches Some(t) ==> match parsed_unsigned(
                t@,
                usize::MAX as nat,
            ) {
                Some(n) => after.allocated_slots == Some(n as usize),
                None => after.allocated_slots == c.allocated_slots,
            }
            &&& env.fsync_every_n_writes is None ==> after.fsync_every_n_writes
                == c.fsync_every_n_writes
            &&& env.fsync_every_n_writes matches Some(t) ==> match parsed_unsigned(
                t@,
                u64::MAX as nat,
            ) {
                Some(n) => after.fsync_every_n_writes == Some(n as u64),
                None => after.fsync_every_n_writes == c.fsync_every_n_writes,
            }
            &&& env.fsync_on_delete is None ==> after.fsync_on_delete == c.fsync_on_delete
            &&& env.fsync_on_delete matches Some(t) ==> match parsed_bool(t@) {
                Some(b) => after.fsync_on_delete == b,
                None => after.fsync_on_delete == c.fsync_on_delete,
            }
            &&& env.fast_recover is None ==> after.fast_recover == c.fast_recover
            &&& env.fast_recover matches Some(t) ==> match parsed_bool(t@) {
                Some(b) => after.fast_recover == b,
                None => after.fast_recover == c.fast_recover,
            }
            &&& after.chunk_store_path == c.chunk_store_path
        }),
{
}

/// A configuration is valid exactly where it has addresses, none of them blank,
/// and neither port is 0.
pub proof fn a_configuration_is_valid_where_nothing_is_empty(c: NodeSettings)
    ensures
        settings_error(c) is None <==> {
            &&& c.metadata_addresses.len() > 0
            &&& forall|i: int|
                0 <= i < c.metadata_addresses.len() ==> trimmed(
                    #[trigger] c.metadata_addresses[i],
                ).len() > 0
            &&& c.port > 0
            &&& c.metrics_port > 0
        },
{
}

/// What a configuration is where nothing is said, which is valid.
pub proof fn the_default_configuration()
    ensures
        default_settings().metadata_addresses.len() == 1,
        default_settings().metadata_addresses[0] == "http://localhost:3001"@,
        default_settings().port == 3000,
        default_settings().metrics_port == 9092,
        default_settings().chunk_store_path == "chunkstore.dat"@,
        default_settings().allocated_slots is None,
        default_settings().fsync_every_n_writes == Some(1u64),
        default_settings().fsync_on_delete,
        !default_settings().fast_recover,
{
}

} // verus!
