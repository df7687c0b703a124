//! Finding a usable assembler: which paths are tried, in which order, what a
//! version banner says of a candidate, and which outcome the search reports.

use vstd::prelude::*;
use crate::text::{push_str, push_decimal, decimal};
use crate::path::{join_path, join};
use crate::version::{Version, parse_nasm_version, version_of, invalid_version_message};
use crate::config::{Build, strs_view};

verus! {

/// Whether version `v` is older than `min`, comparing major, minor and micro
/// in turn.
pub open spec fn version_below(v: (nat, nat, nat), min: Version) -> bool {
    min.0 > v.0 || (min.0 == v.0 && min.1 > v.1) || (min.0 == v.0 && min.1 == v.1 && min.2 > v.2)
}

/// The error for an assembler whose banner announces a version below `min`.
pub open spec fn too_old_message(banner: Seq<char>, min: Version) -> Seq<char> {
    "This version of NASM is too old: "@ + banner + ". Required >= "@ + decimal(min.0 as nat) + "."@
        + decimal(min.1 as nat) + "."@ + decimal(min.2 as nat)
}

/// What a candidate's banner says of it: usable, or why not.
pub open spec fn version_verdict(banner: Seq<char>, min: Version) -> Result<(), Seq<char>> {
    match version_of(banner) {
        None => Err(invalid_version_message(banner)),
        Some(v) => if version_below(v, min) {
            Err(too_old_message(banner, min))
        } else {
            Ok(())
        },
    }
}

/// The paths tried for the assembler: the configured one alone, else the
/// bare name followed by the name in each search directory, in order.
pub open spec fn nasm_candidates(explicit: Option<Seq<char>>, dirs: Seq<Seq<char>>) -> Seq<Seq<char>> {
    match explicit {
        Some(p) => seq![p],
        None => seq!["nasm"@] + dirs.map_values(|d: Seq<char>| join_path(d, "nasm"@)),
    }
}

/// The state of a [`NasmSearch`]: the candidates, how many have been
/// rejected, whether the current one was accepted, and the errors of the
/// rejected ones in order.
pub struct SearchView {
    pub candidates: Seq<Seq<char>>,
    pub next: nat,
    pub found: bool,
    pub errors: Seq<Seq<char>>,
}

/// What the driver of a [`NasmSearch`] has to do next.
#[derive(Debug)]
pub enum SearchStep {
    /// Run this candidate with `-v` and report what it says with `record`.
    Probe(String),
    /// This candidate is usable.
    Found(String),
    /// No candidate is usable; this is the error of the first one tried.
    Failed(String),
}

/// A search through the candidate assembler paths, in order, stopping at the
/// first usable one.
pub struct NasmSearch {
    candidates: Vec<String>,
    next: usize,
    found: bool,
    first_error: Option<String>,
    errors: Ghost<Seq<Seq<char>>>,
}

impl View for NasmSearch {
    type V = SearchView;

    closed spec fn view(&self) -> SearchView {
        SearchView {
            candidates: self.candidates.deep_view(),
            next: self.next as nat,
            found: self.found,
            errors: self.errors@,
        }
    }
}

impl NasmSearch {
    /// The invariant of a search.
    pub closed spec fn wf(&self) -> bool {
        &&& self.candidates.len() >= 1
        &&& self.next <= self.candidates.len()
        &&& self.found ==> self.next < self.candidates.len()
        &&& self.errors@.len() == self.next
        &&& match self.first_error {
            Some(e) => self.next > 0 && e@ == self.errors@[0],
            None => self.next == 0,
        }
    }

    /// What to do next.
    pub fn next_step(&self) -> (r: SearchStep)
        requires
            self.wf(),
        ensures
            self@.found ==> (r matches SearchStep::Found(p) && p@ == self@.candidates[self@.next as int]),
            !self@.found && self@.next < self@.candidates.len() ==> (r matches SearchStep::Probe(p)
                && p@ == self@.candidates[self@.next as int]),
            !self@.found && self@.next >= self@.candidates.len() ==> (r matches SearchStep::Failed(e)
                && e@ == self@.errors[0]),
    {
        if self.found {
            SearchStep::Found(self.candidates[self.next].clone())
        } else if self.next < self.candidates.len() {
            SearchStep::Probe(self.candidates[self.next].clone())
        } else {
            match &self.first_error {
                Some(e) => SearchStep::Failed(e.clone()),
                None => SearchStep::Failed(String::new()),
            }
        }
    }

    /// Records what probing the current candidate gave: `Ok` accepts it, an
    /// error rejects it and moves on. Once the search is over this changes
    /// nothing.
    pub fn record(&mut self, outcome: Result<(), String>)
        requires
            old(self).wf(),
        ensures
            final(self).wf(),
            final(self)@.candidates == old(self)@.candidates,
            old(self)@.found || old(self)@.next >= old(self)@.candidates.len() ==> final(self)@ == old(self)@,
            !old(self)@.found && old(self)@.next < old(self)@.candidates.len() ==> match outcome {
                Ok(_) => final(self)@ == SearchView { found: true, ..old(self)@ },
                Err(e) => final(self)@ == SearchView {
                    next: old(self)@.next + 1,
                    errors: old(self)@.errors.push(e@),
                    ..old(self)@
                },
            },
    {
        if self.found || self.next >= self.candidates.len() {
            return;
        }
        match outcome {
            Ok(()) => {
                self.found = true;
            },
            Err(e) => {
                let ghost ev = e@;
                if self.first_error.is_none() {
                    self.first_error = Some(e);
                }
                self.next = self.next + 1;
                self.errors = Ghost(self.errors@.push(ev));
            },
        }
    }
}

impl Build {
    /// Starts the search for the assembler; `path_dirs` are the directories
    /// of the host's search path, in order.
    pub fn nasm_search(&self, path_dirs: &[&str]) -> (s: NasmSearch)
        ensures
            s.wf(),
            s@ == (SearchView {
                candidates: nasm_candidates(self@.nasm, strs_view(path_dirs@)),
                next: 0,
                found: false,
                errors: Seq::empty(),
            }),
    {
        let mut candidates: Vec<String> = Vec::new();
        match self.nasm_path() {
            Some(p) => {
                candidates.push(p);
                assert(candidates.deep_view() =~= nasm_candidates(self@.nasm, strs_view(path_dirs@)));
            },
            None => {
                let mut bare = String::new();
                push_str(&mut bare, "nasm");
                candidates.push(bare);
                let ghost dirs = strs_view(path_dirs@);
                assert(candidates.deep_view() =~= seq!["nasm"@]);
                for i in 0..path_dirs.len()
                    invariant
                        dirs == strs_view(path_dirs@),
                        candidates.deep_view() == seq!["nasm"@] + dirs.take(i as int).map_values(
                            |d: Seq<char>| join_path(d, "nasm"@),
                        ),
                {
                    let c = join(path_dirs[i], "nasm");
                    let ghost before = candidates.deep_view();
                    candidates.push(c);
                    assert(candidates.deep_view() =~= before.push(c@));
                    assert(dirs.take(i + 1).map_values(|d: Seq<char>| join_path(d, "nasm"@))
                        =~= dirs.take(i as int).map_values(|d: Seq<char>| join_path(d, "nasm"@)).push(
                        join_path(path_dirs@[i as int]@, "nasm"@),
                    ));
                }
                assert(dirs.take(path_dirs.len() as int) == dirs);
            },
        }
        NasmSearch { candidates, next: 0, found: false, first_error: None, errors: Ghost(Seq::empty()) }
    }

    /// Judges a candidate by its `-v` banner: usable when the banner
    /// announces a version no older than the configured minimum.
    pub fn check_nasm_version(&self, banner: &str) -> (r: Result<(), String>)
        ensures
            match version_verdict(banner@, self@.min_version) {
                Ok(_) => r is Ok,
                Err(m) => r matches Err(e) && e@ == m,
            },
    {
        let (major, minor, micro) = self.get_min_version();
        let ver = match parse_nasm_version(banner) {
            Ok(v) => v,
            Err(e) => return Err(e),
        };
        if major > ver.0 || (major == ver.0 && minor > ver.1) || (major == ver.0 && minor == ver.1
            && micro > ver.2) {
            let mut m = String::new();
            push_str(&mut m, "This version of NASM is too old: ");
            push_str(&mut m, banner);
            push_str(&mut m, ". Required >= ");
            push_decimal(&mut m, major);
            push_str(&mut m, ".");
            push_decimal(&mut m, minor);
            push_str(&mut m, ".");
            push_decimal(&mut m, micro);
            Err(m)
        } else {
            Ok(())
        }
    }
}

} // verus!
