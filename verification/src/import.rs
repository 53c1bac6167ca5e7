//! Records as a kernel query reports them, and the rows an importer writes
//! for them: absent values are filled in, and the association of programs
//! with maps is spelled out pair by pair.

use vstd::prelude::*;
use vstd::string::StringExecFns;
use crate::models::{clone_text_opt, text_opt};
use crate::text::{signed_decimal, signed_decimal_string};

verus! {

/// A program as reported.
#[derive(Debug, PartialEq, Eq)]
pub struct ReportedProgram {
    pub id: i32,
    pub name: Option<String>,
    pub pinned: Option<String>,
    pub prog_type: String,
    pub run_time_ns: Option<i64>,
    pub run_cnt: Option<i64>,
    /// The maps the program uses, where the report names them.
    pub map_ids: Option<Vec<i32>>,
}

/// A map as reported.
#[derive(Debug, PartialEq, Eq)]
pub struct ReportedMap {
    pub id: i32,
    pub name: String,
    pub pinned: Option<String>,
    pub map_type: String,
    pub key_size: Option<i32>,
    pub value_size: Option<i32>,
    pub max_entries: Option<i32>,
    pub bytes_used: Option<i64>,
    pub bytes_limit: Option<i64>,
}

/// The row written for a program.
#[derive(Debug, PartialEq, Eq)]
pub struct ProgramRow {
    pub id: i32,
    pub name: String,
    pub path: Option<String>,
    pub prog_type: String,
    pub run_time_ns: i64,
    pub run_cnt: i64,
}

/// The row written for a map.
#[derive(Debug, PartialEq, Eq)]
pub struct MapRow {
    pub id: i32,
    pub name: String,
    pub path: Option<String>,
    pub map_type: String,
    pub key_size: i32,
    pub value_size: i32,
    pub max_entries: i32,
    pub bytes_used: i64,
    pub bytes_limit: i64,
}

/// The name a program without a name is written under.
pub open spec fn fallback_name(id: int) -> Seq<char> {
    "unknown_program_"@ + signed_decimal(id)
}

/// The name a program is written under: its own, or the fallback.
pub open spec fn written_name(name: Option<Seq<char>>, id: int) -> Seq<char> {
    match name {
        Some(text) => text,
        None => fallback_name(id),
    }
}

/// The number written for a 64-bit count that may be absent: zero stands for absence.
pub open spec fn or_zero(value: Option<i64>) -> i64 {
    match value {
        Some(v) => v,
        None => 0,
    }
}

/// The number written for a 32-bit size that may be absent: zero stands for absence.
pub open spec fn size_or_zero(value: Option<i32>) -> i32 {
    match value {
        Some(v) => v,
        None => 0,
    }
}

/// The pairs of program and map that the first `n` programs give rise to:
/// for each program in turn, one pair for each of its maps in turn.
pub open spec fn pairs_of(programs: Seq<ReportedProgram>, n: nat) -> Seq<(i32, i32)>
    decreases n,
{
    if n == 0 || n > programs.len() {
        Seq::empty()
    } else {
        let last = programs[n - 1];
        pairs_of(programs, (n - 1) as nat) + own_pairs(last, own_count(last))
    }
}

/// How many maps a program names.
pub open spec fn own_count(program: ReportedProgram) -> nat {
    match program.map_ids {
        Some(ids) => ids@.len(),
        None => 0,
    }
}

/// The pairs of a program with the first `n` of its maps.
pub open spec fn own_pairs(program: ReportedProgram, n: nat) -> Seq<(i32, i32)> {
    match program.map_ids {
        Some(ids) => Seq::new(n, |i: int| (program.id, ids@[i])),
        None => Seq::empty(),
    }
}

impl ReportedProgram {
    /// The row written for this program: a program without a name gets the
    /// fallback name, and absent counters are written as zero.
    pub fn row(&self) -> (r: ProgramRow)
        ensures
            r.id == self.id,
            r.name@ == written_name(text_opt(self.name), self.id as int),
            text_opt(r.path) == text_opt(self.pinned),
            r.prog_type@ == self.prog_type@,
            r.run_time_ns == or_zero(self.run_time_ns),
            r.run_cnt == or_zero(self.run_cnt),
    {
        let name = match &self.name {
            Some(text) => text.clone(),
            None => {
                let mut text = String::from_str("unknown_program_");
                text.append(signed_decimal_string(self.id as i64).as_str());
                text
            },
        };
        ProgramRow {
            id: self.id,
            name,
            path: clone_text_opt(&self.pinned),
            prog_type: self.prog_type.clone(),
            run_time_ns: match self.run_time_ns {
                Some(v) => v,
                None => 0,
            },
            run_cnt: match self.run_cnt {
                Some(v) => v,
                None => 0,
            },
        }
    }
}

impl ReportedMap {
    /// The row written for this map: absent sizes and counters are written
    /// as zero.
    pub fn row(&self) -> (r: MapRow)
        ensures
            r.id == self.id,
            r.name@ == self.name@,
            text_opt(r.path) == text_opt(self.pinned),
            r.map_type@ == self.map_type@,
            r.key_size == size_or_zero(self.key_size),
            r.value_size == size_or_zero(self.value_size),
            r.max_entries == size_or_zero(self.max_entries),
            r.bytes_used == or_zero(self.bytes_used),
            r.bytes_limit == or_zero(self.bytes_limit),
    {
        MapRow {
            id: self.id,
            name: self.name.clone(),
            path: clone_text_opt(&self.pinned),
            map_type: self.map_type.clone(),
            key_size: match self.key_size {
                Some(v) => v,
                None => 0,
            },
            value_size: match self.value_size {
                Some(v) => v,
                None => 0,
            },
            max_entries: match self.max_entries {
                Some(v) => v,
                None => 0,
            },
            bytes_used: match self.bytes_used {
                Some(v) => v,
                None => 0,
            },
            bytes_limit: match self.bytes_limit {
                Some(v) => v,
                None => 0,
            },
        }
    }
}

/// The association rows to write for `programs`: for each program in turn,
/// one pair of program and map for each map the program names.
pub fn program_map_pairs(programs: &Vec<ReportedProgram>) -> (pairs: Vec<(i32, i32)>)
    ensures
        pairs@ == pairs_of(programs@, programs@.len()),
{
    let mut pairs: Vec<(i32, i32)> = Vec::new();
    let mut i: usize = 0;
    while i < programs.len()
        invariant
            i <= programs@.len(),
            pairs@ == pairs_of(programs@, i as nat),
        decreases programs@.len() - i,
    {
        let program = &programs[i];
        let ghost before = pairs@;
        match &program.map_ids {
            Some(ids) => {
                let mut j: usize = 0;
                while j < ids.len()
                    invariant
                        j <= ids@.len(),
                        program.map_ids == Some(*ids),
                        pairs@ == before + own_pairs(*program, j as nat),
                    decreases ids@.len() - j,
                {
                    pairs.push((program.id, ids[j]));
                    proof {
                        assert(pairs@ =~= before + own_pairs(*program, (j + 1) as nat));
                    }
                    j = j + 1;
                }
            },
            None => {
                proof {
                    assert(pairs@ =~= before + own_pairs(*program, 0));
                }
            },
        }
        i = i + 1;
    }
    pairs
}

} // verus!
