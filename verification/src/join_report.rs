//! What the errors of a join are reported as.
use crate::join::{JoinError, JoinFault, JoinLabel};
use crate::join_scope::{unsupported_message, Join, JoinSide};
use crate::table::{Party, ACTIVATOR_COL_NAME};
use crate::text::{decimal, decimal_text, wide_decimal_text};
use vstd::prelude::*;
use vstd::string::*;

verus! {

/// What a table is called in an error.
pub open spec fn label_text(label: JoinLabel, party: Party) -> Seq<char> {
    match label {
        JoinLabel::Output => "join output"@,
        JoinLabel::LeftInput => "left input"@,
        JoinLabel::RightInput => "right input"@,
        JoinLabel::JoinLeftInput => "join left input"@,
        JoinLabel::JoinRightInput => "join right input"@,
        JoinLabel::SrcLeft => "join src-left"@,
        JoinLabel::SrcRight => "join src-right"@,
        JoinLabel::SrcLeftTable => "Join src-left table"@,
        JoinLabel::SrcRightTable => "Join src-right table"@,
        JoinLabel::Input => match party {
            Party::Prover => "join input"@,
            Party::Verifier => "join input oracle"@,
        },
        JoinLabel::Lookup => match party {
            Party::Prover => "join lookup table"@,
            Party::Verifier => "join lookup oracle table"@,
        },
    }
}

/// What a table is called in an error.
pub fn label_name(label: JoinLabel, party: Party) -> (r: &'static str)
    ensures
        r@ == label_text(label, party),
{
    match label {
        JoinLabel::Output => "join output",
        JoinLabel::LeftInput => "left input",
        JoinLabel::RightInput => "right input",
        JoinLabel::JoinLeftInput => "join left input",
        JoinLabel::JoinRightInput => "join right input",
        JoinLabel::SrcLeft => "join src-left",
        JoinLabel::SrcRight => "join src-right",
        JoinLabel::SrcLeftTable => "Join src-left table",
        JoinLabel::SrcRightTable => "Join src-right table",
        JoinLabel::Input => match party {
            Party::Prover => "join input",
            Party::Verifier => "join input oracle",
        },
        JoinLabel::Lookup => match party {
            Party::Prover => "join lookup table",
            Party::Verifier => "join lookup oracle table",
        },
    }
}

/// What a side of the keys is called in an error.
pub open spec fn keys_text(side: JoinSide, output: bool) -> Seq<char> {
    match (side, output) {
        (JoinSide::Left, false) => "left"@,
        (JoinSide::Right, false) => "right"@,
        (JoinSide::Left, true) => "output-left"@,
        (JoinSide::Right, true) => "output-right"@,
    }
}

fn keys_name(side: JoinSide, output: bool) -> (r: &'static str)
    ensures
        r@ == keys_text(side, output),
{
    match (side, output) {
        (JoinSide::Left, false) => "left",
        (JoinSide::Right, false) => "right",
        (JoinSide::Left, true) => "output-left",
        (JoinSide::Right, true) => "output-right",
    }
}

/// The one text or the other, by party.
pub open spec fn by_party(party: Party, prover: Seq<char>, verifier: Seq<char>) -> Seq<char> {
    match party {
        Party::Prover => prover,
        Party::Verifier => verifier,
    }
}

fn pick(party: Party, prover: &'static str, verifier: &'static str) -> (r: &'static str)
    ensures
        r@ == by_party(party, prover@, verifier@),
{
    match party {
        Party::Prover => prover,
        Party::Verifier => verifier,
    }
}

/// What an error in the wiring of a join is reported as. `detail` is what the
/// error cannot hold: the name of the column, or what the check of the rows
/// of a table reports.
pub open spec fn wiring_message(e: JoinError, party: Party, detail: Seq<char>) -> Seq<char> {
    let head = "Join proof wiring: "@;
    match e {
        JoinError::RowDomain(_) => detail,
        JoinError::FlatWidth { label, declared, actual } => head + label_text(label, party)
            + " contains "@ + decimal(declared as nat) + " row-domain segments but only "@
            + decimal(actual as nat) + " distinct committed fields"@,
        JoinError::SchemaWidth { label, schema, actual } => head + label_text(label, party)
            + " schema has "@ + decimal(schema as nat) + " fields but its committed table has "@
            + decimal(actual as nat),
        JoinError::FieldOrder { label, index } => head + label_text(label, party)
            + " schema field "@ + decimal(index as nat)
            + " does not match the committed field order"@,
        JoinError::FoldWidth { fields, challenges } => head + by_party(
            party,
            "lookup table has "@,
            "lookup oracle table has "@,
        ) + decimal(fields as nat) + " data fields but "@ + decimal(challenges as nat)
            + " fold challenges"@,
        JoinError::NoColumns => head + label_text(JoinLabel::Lookup, party)
            + " has no row-domain columns"@,
        JoinError::Trackers => head + by_party(party, "source index"@, "source-index oracle"@)
            + " and join lookup table belong to different proof trackers"@,
        JoinError::LogSize { actual, expected } => head + by_party(
            party,
            "source index"@,
            "source-index oracle"@,
        ) + " has log size "@ + decimal(actual as nat) + ", expected "@ + decimal(expected as nat),
        JoinError::Collision => head + "reserved source-index column "@ + detail
            + " collides with a payload field"@,
        JoinError::Width => head + "appending a "@ + by_party(
            party,
            "source index"@,
            "source-index oracle"@,
        ) + " did not increase lookup width by one"@,
        JoinError::SourceColumns(label) => head + label_text(label, party)
            + " must have exactly one data column"@,
        JoinError::OutputWidth { actual, expected } => head + "join output has "@ + decimal(
            actual as nat,
        ) + " data fields, expected "@ + decimal(expected as nat) + " left/right fields"@,
        JoinError::OutputField { index } => head + "join output field "@ + decimal(index as nat)
            + " does not match its positional input field"@,
        JoinError::NotDisjoint => head
            + "left/right payload fields are not provenance-disjoint; alias self-join inputs explicitly"@,
        JoinError::MissingActivator => head + "join output is missing its activator"@,
        JoinError::SourceDomain => head + by_party(
            party,
            "source-index tables"@,
            "source-index oracle tables"@,
        ) + " and join output must share one row domain"@,
        JoinError::SourceTrackers => head + "output activator and "@ + by_party(
            party,
            "source indices"@,
            "source-index oracles"@,
        ) + " belong to different proof trackers"@,
        JoinError::MissingSideActivator(side) => head + "join "@ + keys_text(side, false)
            + " table is missing column "@ + ACTIVATOR_COL_NAME@,
        JoinError::KeyNotColumn => "Join match-pair keys must be column expressions"@,
        JoinError::MissingKey { side, output, key: _ } => head + "join "@ + keys_text(side, output)
            + " table is missing column "@ + detail,
        JoinError::AmbiguousKey { side, output, key: _, candidates } => head + "join "@ + keys_text(
            side,
            output,
        ) + " column "@ + detail + " is ambiguous ("@ + decimal(candidates as nat)
            + " candidates)"@,
    }
}

impl JoinError {
    /// What the error is reported as.
    pub fn message(&self, party: Party, detail: &str) -> (r: String)
        ensures
            r@ == wiring_message(*self, party, detail@),
    {
        let mut out: String = "Join proof wiring: ".to_owned();
        match *self {
            JoinError::RowDomain(_) => {
                return detail.to_owned();
            },
            JoinError::FlatWidth { label, declared, actual } => {
                out.append(label_name(label, party));
                out.append(" contains ");
                out.append(wide_decimal_text(declared).as_str());
                out.append(" row-domain segments but only ");
                out.append(decimal_text(actual).as_str());
                out.append(" distinct committed fields");
            },
            JoinError::SchemaWidth { label, schema, actual } => {
                out.append(label_name(label, party));
                out.append(" schema has ");
                out.append(decimal_text(schema).as_str());
                out.append(" fields but its committed table has ");
                out.append(decimal_text(actual).as_str());
            },
            JoinError::FieldOrder { label, index } => {
                out.append(label_name(label, party));
                out.append(" schema field ");
                out.append(decimal_text(index).as_str());
                out.append(" does not match the committed field order");
            },
            JoinError::FoldWidth { fields, challenges } => {
                out.append(pick(party, "lookup table has ", "lookup oracle table has "));
                out.append(decimal_text(fields).as_str());
                out.append(" data fields but ");
                out.append(decimal_text(challenges).as_str());
                out.append(" fold challenges");
            },
            JoinError::NoColumns => {
                out.append(label_name(JoinLabel::Lookup, party));
                out.append(" has no row-domain columns");
            },
            JoinError::Trackers => {
                out.append(pick(party, "source index", "source-index oracle"));
                out.append(" and join lookup table belong to different proof trackers");
            },
            JoinError::LogSize { actual, expected } => {
                out.append(pick(party, "source index", "source-index oracle"));
                out.append(" has log size ");
                out.append(decimal_text(actual).as_str());
                out.append(", expected ");
                out.append(decimal_text(expected).as_str());
            },
            JoinError::Collision => {
                out.append("reserved source-index column ");
                out.append(detail);
                out.append(" collides with a payload field");
            },
            JoinError::Width => {
                out.append("appending a ");
                out.append(pick(party, "source index", "source-index oracle"));
                out.append(" did not increase lookup width by one");
            },
            JoinError::SourceColumns(label) => {
                out.append(label_name(label, party));
                out.append(" must have exactly one data column");
            },
            JoinError::OutputWidth { actual, expected } => {
                out.append("join output has ");
                out.append(decimal_text(actual).as_str());
                out.append(" data fields, expected ");
                out.append(wide_decimal_text(expected).as_str());
                out.append(" left/right fields");
            },
            JoinError::OutputField { index } => {
                out.append("join output field ");
                out.append(decimal_text(index).as_str());
                out.append(" does not match its positional input field");
            },
            JoinError::NotDisjoint => {
                out.append(
                    "left/right payload fields are not provenance-disjoint; alias self-join inputs explicitly",
                );
            },
            JoinError::MissingActivator => {
                out.append("join output is missing its activator");
            },
            JoinError::SourceDomain => {
                out.append(pick(party, "source-index tables", "source-index oracle tables"));
                out.append(" and join output must share one row domain");
            },
            JoinError::SourceTrackers => {
                out.append("output activator and ");
                out.append(pick(party, "source indices", "source-index oracles"));
                out.append(" belong to different proof trackers");
            },
            JoinError::MissingSideActivator(side) => {
                out.append("join ");
                out.append(keys_name(side, false));
                out.append(" table is missing column ");
                out.append(ACTIVATOR_COL_NAME);
            },
            JoinError::KeyNotColumn => {
                return "Join match-pair keys must be column expressions".to_owned();
            },
            JoinError::MissingKey { side, output, key: _ } => {
                out.append("join ");
                out.append(keys_name(side, output));
                out.append(" table is missing column ");
                out.append(detail);
            },
            JoinError::AmbiguousKey { side, output, key: _, candidates } => {
                out.append("join ");
                out.append(keys_name(side, output));
                out.append(" column ");
                out.append(detail);
                out.append(" is ambiguous (");
                out.append(decimal_text(candidates).as_str());
                out.append(" candidates)");
            },
        }
        out
    }
}

impl JoinFault {
    /// What the fault is reported as.
    pub fn message(&self, join: &Join, party: Party, detail: &str) -> (r: String)
        ensures
            r@ == match *self {
                JoinFault::Unsupported(u) => unsupported_message(u, join@, detail@),
                JoinFault::Wiring(e) => wiring_message(e, party, detail@),
            },
    {
        match *self {
            JoinFault::Unsupported(u) => u.message(join, detail),
            JoinFault::Wiring(e) => e.message(party, detail),
        }
    }
}

} // verus!
