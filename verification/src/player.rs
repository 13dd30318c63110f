//! Launching an external player: which program to start, and how the
//! attempt ended.

use vstd::prelude::*;
use crate::config::{Config, ConfigView};
use crate::text::same_text;

verus! {

/// How an attempt to play a channel ended.
#[derive(Clone, Copy, Debug, PartialEq, Eq)]
pub enum Outcome {
    /// The player ran and left with exit code zero.
    Success,
    /// The player ran and left otherwise.
    NonZeroExit,
    /// The player could not be started.
    SpawnFailure,
    /// The player was started, but its end could not be observed.
    WaitFailure,
    /// No program is known for the player asked for.
    ConfigurationError,
}

/// Why no program is known for a player.
#[derive(Clone, Copy, Debug, PartialEq, Eq)]
pub enum PlayerFault {
    /// The name is that of no player.
    UnknownPlayer,
    /// The settings give no path for the player.
    PathNotConfigured,
}

/// What to do first when a channel is to be played.
#[derive(Debug, PartialEq, Eq)]
pub enum LaunchStep {
    /// Start `program` with `argument` as its one argument.
    Spawn { program: String, argument: String },
    /// Start nothing; the attempt has ended.
    Done(Outcome),
}

/// The mathematical value of a [`LaunchStep`].
pub enum LaunchStepView {
    Spawn { program: Seq<char>, argument: Seq<char> },
    Done(Outcome),
}

impl View for LaunchStep {
    type V = LaunchStepView;

    open spec fn view(&self) -> LaunchStepView {
        match self {
            LaunchStep::Spawn { program, argument } => LaunchStepView::Spawn {
                program: program@,
                argument: argument@,
            },
            LaunchStep::Done(outcome) => LaunchStepView::Done(*outcome),
        }
    }
}

/// Whether the program could be started.
#[derive(Clone, Copy, Debug, PartialEq, Eq)]
pub enum SpawnReport {
    Started,
    Failed,
}

/// What waiting for the program gave: its exit code, where it left with
/// one, or that its end could not be observed.
#[derive(Clone, Copy, Debug, PartialEq, Eq)]
pub enum WaitReport {
    Exited { code: Option<i32> },
    Failed,
}

/// The program that the settings give for a player.
pub open spec fn program_of(config: ConfigView, player_id: Seq<char>) -> Result<Seq<char>, PlayerFault> {
    if player_id == "mpv"@ {
        match config.mpv_path {
            Some(path) => Ok(path),
            None => Err(PlayerFault::PathNotConfigured),
        }
    } else if player_id == "vlc"@ {
        match config.vlc_path {
            Some(path) => Ok(path),
            None => Err(PlayerFault::PathNotConfigured),
        }
    } else {
        Err(PlayerFault::UnknownPlayer)
    }
}

/// The first step of a launch: the program is started with the address as its
/// argument, or, where none is known for the player, the attempt ends at once.
pub open spec fn first_step(config: ConfigView, player_id: Seq<char>, url: Seq<char>) -> LaunchStepView {
    match program_of(config, player_id) {
        Ok(program) => LaunchStepView::Spawn { program: program, argument: url },
        Err(_) => LaunchStepView::Done(Outcome::ConfigurationError),
    }
}

/// What starting the program decides: nothing yet where it started.
pub open spec fn outcome_of_spawn(report: SpawnReport) -> Option<Outcome> {
    match report {
        SpawnReport::Started => None,
        SpawnReport::Failed => Some(Outcome::SpawnFailure),
    }
}

/// How the attempt ended, from what waiting gave.
pub open spec fn outcome_of_wait(report: WaitReport) -> Outcome {
    match report {
        WaitReport::Exited { code } => if code == Some(0i32) {
            Outcome::Success
        } else {
            Outcome::NonZeroExit
        },
        WaitReport::Failed => Outcome::WaitFailure,
    }
}

/// How a launch ends, given what starting and waiting give where they are reached.
pub open spec fn launch_outcome(
    config: ConfigView,
    player_id: Seq<char>,
    url: Seq<char>,
    spawn: SpawnReport,
    wait: WaitReport,
) -> Outcome {
    match first_step(config, player_id, url) {
        LaunchStepView::Done(outcome) => outcome,
        LaunchStepView::Spawn { .. } => match outcome_of_spawn(spawn) {
            Some(outcome) => outcome,
            None => outcome_of_wait(wait),
        },
    }
}

/// Finds the program for a player: `mpv` and `vlc` are the players, each
/// with the path that the settings give it.
pub fn resolve_player(config: &Config, player_id: &str) -> (program: Result<String, PlayerFault>)
    ensures
        match program {
            Ok(path) => program_of(config@, player_id@) == Ok::<Seq<char>, PlayerFault>(path@),
            Err(fault) => program_of(config@, player_id@) == Err::<Seq<char>, PlayerFault>(fault),
        },
{
    let configured = if same_text(player_id, "mpv") {
        &config.mpv_path
    } else if same_text(player_id, "vlc") {
        &config.vlc_path
    } else {
        return Err(PlayerFault::UnknownPlayer);
    };
    match configured {
        Some(path) => Ok(path.clone()),
        None => Err(PlayerFault::PathNotConfigured),
    }
}

/// Decides the first step of playing the address `url` with the player `player_id`.
pub fn begin_launch(config: &Config, player_id: &str, url: &str) -> (step: LaunchStep)
    ensures
        step@ == first_step(config@, player_id@, url@),
{
    match resolve_player(config, player_id) {
        Ok(program) => LaunchStep::Spawn { program, argument: url.to_owned() },
        Err(_) => LaunchStep::Done(Outcome::ConfigurationError),
    }
}

/// Decides what follows the attempt to start the program: `None` where it
/// started and is to be waited for.
pub fn after_spawn(report: SpawnReport) -> (outcome: Option<Outcome>)
    ensures
        outcome == outcome_of_spawn(report),
{
    match report {
        SpawnReport::Started => None,
        SpawnReport::Failed => Some(Outcome::SpawnFailure),
    }
}

/// Says how the attempt ended, from what waiting for the program gave.
pub fn after_wait(report: WaitReport) -> (outcome: Outcome)
    ensures
        outcome == outcome_of_wait(report),
{
    match report {
        WaitReport::Exited { code } => match code {
            Some(c) => if c == 0 {
                Outcome::Success
            } else {
                Outcome::NonZeroExit
            },
            None => Outcome::NonZeroExit,
        },
        WaitReport::Failed => Outcome::WaitFailure,
    }
}

/// A player that is not known, or that has no path, ends the launch with a
/// configuration error whatever else would happen, and nothing is started.
pub proof fn lemma_unconfigured_player(
    config: ConfigView,
    player_id: Seq<char>,
    url: Seq<char>,
    spawn: SpawnReport,
    wait: WaitReport,
)
    requires
        program_of(config, player_id).is_err(),
    ensures
        first_step(config, player_id, url) == LaunchStepView::Done(Outcome::ConfigurationError),
        launch_outcome(config, player_id, url, spawn, wait) == Outcome::ConfigurationError,
{
}

/// A name other than `mpv` and `vlc` is that of no player.
pub proof fn lemma_unknown_player(config: ConfigView, player_id: Seq<char>)
    requires
        player_id != "mpv"@,
        player_id != "vlc"@,
    ensures
        program_of(config, player_id) == Err::<Seq<char>, PlayerFault>(PlayerFault::UnknownPlayer),
{
}

} // verus!
