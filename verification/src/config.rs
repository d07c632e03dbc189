//! What a run is configured with, as far as the engine reads it.

use crate::text::{parse_u32, parse_unsigned, split_on, split_text, texts, trim, trimmed_text};
use std::collections::HashSet;
use vstd::prelude::*;

verus! {

broadcast use vstd::std_specs::hash::group_hash_axioms;

/// How the results are shown.
#[derive(Debug, Clone, Copy, PartialEq, Eq)]
pub enum OutputFormat {
    Terminal,
    Json,
    Csv,
}

/// The windowing policy of a run.
#[derive(Debug)]
pub enum Mode {
    SimpleMode,
    PhaseMode(PhasesConfig),
}

/// What the multi-window policy needs: the pattern of the boundary tokens.
#[derive(Debug)]
pub struct PhasesConfig {
    pub token_pattern: String,
}

/// What listing the sensors needs.
#[derive(Debug)]
pub struct ListSensorsConfig {
    pub output_format: OutputFormat,
    pub rapl_path: Option<String>,
}

impl Clone for PhasesConfig {
    fn clone(&self) -> (copy: Self)
        ensures
            copy == *self,
    {
        PhasesConfig { token_pattern: self.token_pattern.clone() }
    }
}

impl Clone for Mode {
    fn clone(&self) -> (copy: Self)
        ensures
            copy == *self,
    {
        match self {
            Mode::SimpleMode => Mode::SimpleMode,
            Mode::PhaseMode(phases) => Mode::PhaseMode(phases.clone()),
        }
    }
}

/// The output format that the two switches ask for: JSON wins over CSV,
/// and the terminal is what is left.
pub fn output_format(json: bool, csv: bool) -> (format: OutputFormat)
    ensures
        format == if json {
            OutputFormat::Json
        } else if csv {
            OutputFormat::Csv
        } else {
            OutputFormat::Terminal
        },
{
    if json {
        OutputFormat::Json
    } else if csv {
        OutputFormat::Csv
    } else {
        OutputFormat::Terminal
    }
}

/// The socket index that a piece of a socket list stands for: a decimal
/// number with white space around it.
pub open spec fn piece_socket(piece: Seq<char>) -> Option<nat> {
    parse_unsigned(trimmed_text(piece), u32::MAX as nat)
}

/// The socket indices that some piece of `pieces` stands for.
pub open spec fn sockets_in(pieces: Seq<Seq<char>>) -> Set<u32> {
    Set::new(
        |v: u32|
            exists|k: int| 0 <= k < pieces.len() && piece_socket(#[trigger] pieces[k]) == Some(v as nat),
    )
}

/// The sockets that a list such as `0,1` names: the indices
/// between its commas; a piece that is no index is passed over.
pub open spec fn parsed_sockets(spec: Seq<char>) -> Set<u32> {
    sockets_in(split_on(spec, ','))
}

/// The indices of a list with one more piece at the end.
proof fn lemma_sockets_in_push(pieces: Seq<Seq<char>>, piece: Seq<char>)
    ensures
        forall|v: u32| #[trigger]
            sockets_in(pieces.push(piece)).contains(v) <==> sockets_in(pieces).contains(v)
                || piece_socket(piece) == Some(v as nat),
{
    let all = pieces.push(piece);
    assert forall|v: u32| #[trigger]
        sockets_in(all).contains(v) <==> sockets_in(pieces).contains(v) || piece_socket(piece)
            == Some(v as nat) by {
        if sockets_in(all).contains(v) {
            let k = choose|k: int|
                0 <= k < all.len() && piece_socket(#[trigger] all[k]) == Some(v as nat);
            if k < pieces.len() {
                assert(piece_socket(pieces[k]) == Some(v as nat));
            }
        }
        if sockets_in(pieces).contains(v) {
            let k = choose|k: int|
                0 <= k < pieces.len() && piece_socket(#[trigger] pieces[k]) == Some(v as nat);
            assert(piece_socket(all[k]) == Some(v as nat));
        }
        if piece_socket(piece) == Some(v as nat) {
            assert(piece_socket(all[pieces.len() as int]) == Some(v as nat));
        }
    }
}

/// The sockets that a list such as `0,1` names.
pub fn parse_sockets(spec: &str) -> (sockets: HashSet<u32>)
    ensures
        sockets@ == parsed_sockets(spec@),
{
    let pieces = split_text(spec, ',');
    let mut sockets: HashSet<u32> = HashSet::new();
    let mut i: usize = 0;
    proof {
        assert(sockets@ =~= sockets_in(texts(pieces@).take(0)));
    }
    while i < pieces.len()
        invariant
            0 <= i <= pieces@.len(),
            sockets@ == sockets_in(texts(pieces@).take(i as int)),
        decreases pieces@.len() - i,
    {
        let text = trim(pieces[i].as_str());
        let ghost before = sockets@;
        if let Some(v) = parse_u32(text.as_str()) {
            sockets.insert(v);
        }
        proof {
            let done = texts(pieces@).take(i as int);
            lemma_sockets_in_push(done, pieces@[i as int]@);
            assert(done.push(pieces@[i as int]@) =~= texts(pieces@).take(i + 1));
            assert(sockets@ =~= sockets_in(texts(pieces@).take(i + 1)));
        }
        i += 1;
    }
    proof {
        assert(texts(pieces@).take(i as int) =~= texts(pieces@));
    }
    sockets
}

} // verus!
