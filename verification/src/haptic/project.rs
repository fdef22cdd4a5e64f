//! The structure of a bHaptics tact project, and the playback plan that it
//! projects to: which effects of which tracks play at which body position,
//! and in which mode.
use vstd::prelude::*;

use crate::haptic::bhaptics::{position_str_to_pattern, spec_position_of, PatternLocation};
use crate::text::str_eq;

verus! {

broadcast use vstd::string::group_string_axioms;

/// One mode entry of an effect: the kind that it names (`None` when it
/// names none) and whether it carries dot data and path data.
#[derive(Debug, Clone)]
pub struct ModeSpec {
    pub mode: Option<String>,
    pub has_dot: bool,
    pub has_path: bool,
}

/// One effect of a track: its start and offset times, and its modes by
/// position name (`None` when the effect has no mode table).
#[derive(Debug, Clone)]
pub struct Effect {
    pub start_time: i32,
    pub offset_time: i32,
    pub modes: Option<Vec<(String, ModeSpec)>>,
}

/// One track of a project; `None` effects when the track has no effect list.
#[derive(Debug, Clone)]
pub struct Track {
    pub enable: bool,
    pub effects: Option<Vec<Effect>>,
}

/// A tact project; `None` tracks when it has no track list.
#[derive(Debug, Clone)]
pub struct TactProject {
    pub tracks: Option<Vec<Track>>,
}

/// How an effect plays at a position.
#[derive(Debug, Clone, Copy, PartialEq, Eq, Structural)]
pub enum ModeKind {
    /// Motor by motor, from the dot data.
    Dot,
    /// Along a path over the surface, from the path data.
    Path,
}

/// One effect to play at one position: where it sits in the project, the
/// position, the mode and the effect's times.
#[derive(Debug, Clone, Copy, PartialEq, Eq, Structural)]
pub struct EffectPlan {
    pub track: usize,
    pub effect: usize,
    /// The index of the mode entry in the effect's mode table.
    pub mode_entry: usize,
    pub location: PatternLocation,
    pub kind: ModeKind,
    pub start_time: i32,
    pub offset_time: i32,
}

/// The kind that a mode entry plays in: a missing kind, `dotMode` or
/// `DOT_MODE` is dot play when the entry has dot data; `pathMode` or
/// `PATH_MODE` is path play when it has path data; anything else plays not.
pub open spec fn spec_mode_kind(m: ModeSpec) -> Option<ModeKind> {
    let name = match m.mode {
        Some(s) => s@,
        None => "dotMode"@,
    };
    if name == "dotMode"@ || name == "DOT_MODE"@ {
        if m.has_dot {
            Some(ModeKind::Dot)
        } else {
            None
        }
    } else if name == "pathMode"@ || name == "PATH_MODE"@ {
        if m.has_path {
            Some(ModeKind::Path)
        } else {
            None
        }
    } else {
        None
    }
}

/// The plan of mode entry `mi` of effect `ei` of track `ti`, when its
/// position is known and its kind plays.
pub open spec fn spec_mode_plan(
    entry: (String, ModeSpec),
    ti: int,
    ei: int,
    mi: int,
    start_time: i32,
    offset_time: i32,
) -> Seq<EffectPlan> {
    match (spec_position_of(entry.0@), spec_mode_kind(entry.1)) {
        (Some(location), Some(kind)) => seq![
            EffectPlan {
                track: ti as usize,
                effect: ei as usize,
                mode_entry: mi as usize,
                location,
                kind,
                start_time,
                offset_time,
            },
        ],
        _ => Seq::empty(),
    }
}

/// The plans of the first `n` mode entries of an effect, in order.
pub open spec fn spec_modes_plans(
    modes: Seq<(String, ModeSpec)>,
    ti: int,
    ei: int,
    start_time: i32,
    offset_time: i32,
    n: int,
) -> Seq<EffectPlan>
    decreases n,
{
    if n <= 0 {
        Seq::empty()
    } else {
        spec_modes_plans(modes, ti, ei, start_time, offset_time, n - 1) + spec_mode_plan(
            modes[n - 1],
            ti,
            ei,
            n - 1,
            start_time,
            offset_time,
        )
    }
}

/// The plans of effect `ei` of track `ti`.
pub open spec fn spec_effect_plans(e: Effect, ti: int, ei: int) -> Seq<EffectPlan> {
    match e.modes {
        Some(ms) => spec_modes_plans(ms@, ti, ei, e.start_time, e.offset_time, ms@.len() as int),
        None => Seq::empty(),
    }
}

/// The plans of the first `n` effects of track `ti`, in order.
pub open spec fn spec_effects_plans(effects: Seq<Effect>, ti: int, n: int) -> Seq<EffectPlan>
    decreases n,
{
    if n <= 0 {
        Seq::empty()
    } else {
        spec_effects_plans(effects, ti, n - 1) + spec_effect_plans(effects[n - 1], ti, n - 1)
    }
}

/// The plans of track `ti`: none when it is disabled or has no effects.
pub open spec fn spec_track_plans(t: Track, ti: int) -> Seq<EffectPlan> {
    match t.effects {
        Some(es) => if t.enable {
            spec_effects_plans(es@, ti, es@.len() as int)
        } else {
            Seq::empty()
        },
        None => Seq::empty(),
    }
}

/// The plans of the first `n` tracks, in order.
pub open spec fn spec_tracks_plans(tracks: Seq<Track>, n: int) -> Seq<EffectPlan>
    decreases n,
{
    if n <= 0 {
        Seq::empty()
    } else {
        spec_tracks_plans(tracks, n - 1) + spec_track_plans(tracks[n - 1], n - 1)
    }
}

/// The plans of a project.
pub open spec fn spec_project_effects(p: TactProject) -> Seq<EffectPlan> {
    match p.tracks {
        Some(ts) => spec_tracks_plans(ts@, ts@.len() as int),
        None => Seq::empty(),
    }
}

fn mode_kind(m: &ModeSpec) -> (res: Option<ModeKind>)
    ensures
        res == spec_mode_kind(*m),
{
    let dot = match &m.mode {
        Some(s) => str_eq(s.as_str(), "dotMode") || str_eq(s.as_str(), "DOT_MODE"),
        None => true,
    };
    let path = match &m.mode {
        Some(s) => str_eq(s.as_str(), "pathMode") || str_eq(s.as_str(), "PATH_MODE"),
        None => false,
    };
    proof {
        reveal_strlit("dotMode");
        reveal_strlit("DOT_MODE");
        reveal_strlit("pathMode");
        reveal_strlit("PATH_MODE");
        assert("dotMode"@[0] != "pathMode"@[0]);
        assert("DOT_MODE"@[0] != "pathMode"@[0]);
        assert("dotMode"@[0] != "PATH_MODE"@[0]);
        assert("DOT_MODE"@[0] != "PATH_MODE"@[0]);
    }
    if dot {
        if m.has_dot {
            Some(ModeKind::Dot)
        } else {
            None
        }
    } else if path {
        if m.has_path {
            Some(ModeKind::Path)
        } else {
            None
        }
    } else {
        None
    }
}

fn effect_plans(e: &Effect, ti: usize, ei: usize, out: &mut Vec<EffectPlan>)
    ensures
        final(out)@ == old(out)@ + spec_effect_plans(*e, ti as int, ei as int),
{
    match &e.modes {
        None => {
            assert(old(out)@ + Seq::<EffectPlan>::empty() =~= old(out)@);
        },
        Some(ms) => {
            let ghost start = out@;
            let mut mi: usize = 0;
            while mi < ms.len()
                invariant
                    mi <= ms@.len(),
                    e.modes == Some(*ms),
                    out@ == start + spec_modes_plans(ms@, ti as int, ei as int, e.start_time, e.offset_time, mi as int),
                decreases ms@.len() - mi,
            {
                let entry = &ms[mi];
                let ghost before = out@;
                match (position_str_to_pattern(entry.0.as_str()), mode_kind(&entry.1)) {
                    (Some(location), Some(kind)) => {
                        out.push(
                            EffectPlan {
                                track: ti,
                                effect: ei,
                                mode_entry: mi,
                                location,
                                kind,
                                start_time: e.start_time,
                                offset_time: e.offset_time,
                            },
                        );
                    },
                    _ => {},
                }
                assert(out@ =~= start + spec_modes_plans(
                    ms@,
                    ti as int,
                    ei as int,
                    e.start_time,
                    e.offset_time,
                    mi + 1,
                ));
                mi += 1;
            }
        },
    }
}

fn track_plans(t: &Track, ti: usize, out: &mut Vec<EffectPlan>)
    ensures
        final(out)@ == old(out)@ + spec_track_plans(*t, ti as int),
{
    match &t.effects {
        Some(es) => {
            if !t.enable {
                assert(old(out)@ + Seq::<EffectPlan>::empty() =~= old(out)@);
                return ;
            }
            let ghost start = out@;
            let mut ei: usize = 0;
            while ei < es.len()
                invariant
                    ei <= es@.len(),
                    out@ == start + spec_effects_plans(es@, ti as int, ei as int),
                decreases es@.len() - ei,
            {
                effect_plans(&es[ei], ti, ei, out);
                assert(out@ =~= start + spec_effects_plans(es@, ti as int, ei + 1));
                ei += 1;
            }
        },
        None => {
            assert(old(out)@ + Seq::<EffectPlan>::empty() =~= old(out)@);
        },
    }
}

/// Projects a tact project onto playback plans: for each enabled track with
/// effects, in order, each effect with a mode table, in order, each mode
/// entry whose position name is known and whose kind plays gives one plan
/// that carries the effect's start and offset times.
pub fn project_effects(p: &TactProject) -> (res: Vec<EffectPlan>)
    ensures
        res@ == spec_project_effects(*p),
{
    let mut out: Vec<EffectPlan> = Vec::new();
    match &p.tracks {
        Some(ts) => {
            let mut ti: usize = 0;
            while ti < ts.len()
                invariant
                    ti <= ts@.len(),
                    out@ == spec_tracks_plans(ts@, ti as int),
                decreases ts@.len() - ti,
            {
                track_plans(&ts[ti], ti, &mut out);
                ti += 1;
            }
        },
        None => {},
    }
    out
}

} // verus!
