//! Opening an environment.

use vstd::prelude::*;

use crate::error::Error;
use crate::flags::EnvironmentFlags;

verus! {

/// How far opening an environment has come.
#[derive(Clone, Copy, Debug, PartialEq, Eq)]
pub enum OpeningStage {
    /// There is no environment yet.
    Create,
    /// The number of reader slots is to be set.
    SetMaxReaders { max_readers: u32 },
    /// The number of named databases is to be set.
    SetMaxDbs { max_dbs: u32 },
    /// The size of the memory map is to be set.
    SetMapSize { map_size: usize },
    /// The files are to be opened.
    Open,
    /// A call failed, and the environment is to be closed again.
    Close { error: Error },
    /// Opening is over, with this result.
    Finished { result: Result<(), Error> },
}

/// What is to be done next to open an environment.
#[derive(Clone, Copy, Debug, PartialEq, Eq)]
pub enum OpeningAction {
    /// Create an environment handle.
    Create,
    /// Set the number of reader slots.
    SetMaxReaders(u32),
    /// Set the number of named databases.
    SetMaxDbs(u32),
    /// Set the size of the memory map.
    SetMapSize(usize),
    /// Open the files at the path, with these flags and permissions.
    Open(u32, u32),
    /// Close the environment handle.
    Close,
    /// Nothing: opening is over, with this result.
    Done(Result<(), Error>),
}

/// What was done to open an environment.
#[derive(Clone, Copy, Debug, PartialEq, Eq, Structural)]
pub enum OpeningEvent {
    /// A call was made, and ended with this result code.
    Called(i32),
    /// The environment handle was closed.
    Closed,
}

/// Opening an environment: making a handle, setting what is to be set on it, and opening the files.
#[derive(Clone, Copy, Debug)]
pub struct Opening {
    pub flags: EnvironmentFlags,
    pub max_readers: Option<u32>,
    pub max_dbs: Option<u32>,
    pub map_size: Option<usize>,
    pub mode: u32,
    /// Whether the path can be handed to LMDB: it has no null character in it.
    pub path_is_usable: bool,
    pub stage: OpeningStage,
}

impl Opening {
    /// What comes once all is set. A path that cannot be used is found out only here, and the
    /// handle is then left open.
    pub open spec fn before_open(self) -> OpeningStage {
        if self.path_is_usable {
            OpeningStage::Open
        } else {
            OpeningStage::Finished { result: Err(Error::Invalid) }
        }
    }

    /// What comes once the number of named databases is set.
    pub open spec fn before_map_size(self) -> OpeningStage {
        match self.map_size {
            Some(map_size) => OpeningStage::SetMapSize { map_size },
            None => self.before_open(),
        }
    }

    /// What comes once the number of reader slots is set.
    pub open spec fn before_max_dbs(self) -> OpeningStage {
        match self.max_dbs {
            Some(max_dbs) => OpeningStage::SetMaxDbs { max_dbs },
            None => self.before_map_size(),
        }
    }

    /// What comes once the handle is there.
    pub open spec fn before_max_readers(self) -> OpeningStage {
        match self.max_readers {
            Some(max_readers) => OpeningStage::SetMaxReaders { max_readers },
            None => self.before_max_dbs(),
        }
    }

    /// What is to be done at this stage.
    pub open spec fn next_action(self) -> OpeningAction {
        match self.stage {
            OpeningStage::Create => OpeningAction::Create,
            OpeningStage::SetMaxReaders { max_readers } => OpeningAction::SetMaxReaders(
                max_readers,
            ),
            OpeningStage::SetMaxDbs { max_dbs } => OpeningAction::SetMaxDbs(max_dbs),
            OpeningStage::SetMapSize { map_size } => OpeningAction::SetMapSize(map_size),
            OpeningStage::Open => OpeningAction::Open(self.flags.bits, self.mode),
            OpeningStage::Close { error } => OpeningAction::Close,
            OpeningStage::Finished { result } => OpeningAction::Done(result),
        }
    }

    /// The stage after an event; one that does not answer the action changes nothing. A call that
    /// fails has the handle closed, where there is one.
    pub open spec fn stage_after(self, event: OpeningEvent) -> OpeningStage {
        match (self.stage, event) {
            (OpeningStage::Close { error }, OpeningEvent::Closed) => OpeningStage::Finished {
                result: Err(error),
            },
            (OpeningStage::Close { error }, _) => self.stage,
            (OpeningStage::Finished { result }, _) => self.stage,
            (stage, OpeningEvent::Called(code)) => match crate::error::result_of_code(code) {
                Ok(()) => match stage {
                    OpeningStage::Create => self.before_max_readers(),
                    OpeningStage::SetMaxReaders { max_readers } => self.before_max_dbs(),
                    OpeningStage::SetMaxDbs { max_dbs } => self.before_map_size(),
                    OpeningStage::SetMapSize { map_size } => self.before_open(),
                    _ => OpeningStage::Finished { result: Ok(()) },
                },
                Err(error) => if stage is Create {
                    OpeningStage::Finished { result: Err(error) }
                } else {
                    OpeningStage::Close { error }
                },
            },
            _ => self.stage,
        }
    }

    /// What is to be done next.
    pub fn action(&self) -> (action: OpeningAction)
        ensures
            action == self.next_action(),
    {
        match self.stage {
            OpeningStage::Create => OpeningAction::Create,
            OpeningStage::SetMaxReaders { max_readers } => OpeningAction::SetMaxReaders(
                max_readers,
            ),
            OpeningStage::SetMaxDbs { max_dbs } => OpeningAction::SetMaxDbs(max_dbs),
            OpeningStage::SetMapSize { map_size } => OpeningAction::SetMapSize(map_size),
            OpeningStage::Open => OpeningAction::Open(self.flags.bits(), self.mode),
            OpeningStage::Close { error } => OpeningAction::Close,
            OpeningStage::Finished { result } => OpeningAction::Done(result),
        }
    }

    /// The stage after a call that succeeded.
    fn advance(&self) -> (stage: OpeningStage)
        requires
            !(self.stage is Close),
            !(self.stage is Finished),
        ensures
            stage == self.stage_after(OpeningEvent::Called(crate::error::MDB_SUCCESS)),
    {
        if let OpeningStage::Open = self.stage {
            return OpeningStage::Finished { result: Ok(()) };
        }
        if let OpeningStage::Create = self.stage {
            if let Some(max_readers) = self.max_readers {
                return OpeningStage::SetMaxReaders { max_readers };
            }
        }
        if matches!(self.stage, OpeningStage::Create | OpeningStage::SetMaxReaders { .. }) {
            if let Some(max_dbs) = self.max_dbs {
                return OpeningStage::SetMaxDbs { max_dbs };
            }
        }
        if !matches!(self.stage, OpeningStage::SetMapSize { .. }) {
            if let Some(map_size) = self.map_size {
                return OpeningStage::SetMapSize { map_size };
            }
        }
        if self.path_is_usable {
            OpeningStage::Open
        } else {
            OpeningStage::Finished { result: Err(Error::Invalid) }
        }
    }

    /// Takes note of what was done.
    pub fn step(&mut self, event: OpeningEvent)
        ensures
            *final(self) == (Opening { stage: old(self).stage_after(event), ..*old(self) }),
    {
        self.stage = match (self.stage, event) {
            (OpeningStage::Close { error }, OpeningEvent::Closed) => OpeningStage::Finished {
                result: Err(error),
            },
            (OpeningStage::Close { error }, _) => OpeningStage::Close { error },
            (OpeningStage::Finished { result }, _) => OpeningStage::Finished { result },
            (stage, OpeningEvent::Called(code)) => match crate::error::lmdb_result(code) {
                Ok(()) => self.advance(),
                Err(error) => match stage {
                    OpeningStage::Create => OpeningStage::Finished { result: Err(error) },
                    _ => OpeningStage::Close { error },
                },
            },
            (stage, _) => stage,
        };
    }
}

/// An environment is open only where its files were opened with the flags and permissions that were
/// asked for, at a path that could be used.
pub proof fn opening_succeeds_with_the_files(opening: Opening, event: OpeningEvent)
    requires
        !(opening.stage is Finished),
        opening.stage_after(event) matches OpeningStage::Finished { result: Ok(_) },
    ensures
        opening.next_action() == OpeningAction::Open(opening.flags.bits, opening.mode),
        event == OpeningEvent::Called(crate::error::MDB_SUCCESS),
{
}

/// A call on the handle that fails is followed by closing the handle, and then by the error of that
/// call.
pub proof fn a_failed_call_closes_the_handle(opening: Opening, code: i32)
    requires
        !(opening.stage is Create),
        !(opening.stage is Close),
        !(opening.stage is Finished),
        code != crate::error::MDB_SUCCESS,
    ensures
        ({
            let error = crate::error::error_of_code(code);
            let closing = Opening {
                stage: opening.stage_after(OpeningEvent::Called(code)),
                ..opening
            };
            &&& closing.next_action() == OpeningAction::Close
            &&& closing.stage_after(OpeningEvent::Closed) == (OpeningStage::Finished {
                result: Err(error),
            })
        }),
{
}

/// A call for a value that is to be set, or none.
pub open spec fn setting(call: Option<OpeningAction>) -> Seq<OpeningAction> {
    match call {
        Some(call) => seq![call],
        None => Seq::empty(),
    }
}

impl Opening {
    /// The calls that open the environment as it was configured, in their order.
    pub open spec fn configured_calls(self) -> Seq<OpeningAction> {
        seq![OpeningAction::Create] + setting(
            match self.max_readers {
                Some(max_readers) => Some(OpeningAction::SetMaxReaders(max_readers)),
                None => None,
            },
        ) + setting(
            match self.max_dbs {
                Some(max_dbs) => Some(OpeningAction::SetMaxDbs(max_dbs)),
                None => None,
            },
        ) + setting(
            match self.map_size {
                Some(map_size) => Some(OpeningAction::SetMapSize(map_size)),
                None => None,
            },
        ) + setting(
            if self.path_is_usable {
                Some(OpeningAction::Open(self.flags.bits, self.mode))
            } else {
                None
            },
        )
    }

    /// The calls that are made from here on where each succeeds, but no more than so many.
    pub open spec fn calls_that_succeed(self, most: nat) -> Seq<OpeningAction>
        decreases most,
    {
        if most == 0 || self.stage is Close || self.stage is Finished {
            Seq::empty()
        } else {
            let next = Opening {
                stage: self.stage_after(OpeningEvent::Called(crate::error::MDB_SUCCESS)),
                ..self
            };
            seq![self.next_action()] + next.calls_that_succeed((most - 1) as nat)
        }
    }
}

/// Where every call succeeds, the calls that are made are those that were configured, each once and
/// in order. Where the path cannot be used, the files are not opened.
pub proof fn opening_makes_the_configured_calls(opening: Opening, most: nat)
    requires
        opening.stage is Create,
        most >= 6,
    ensures
        opening.calls_that_succeed(most) == opening.configured_calls(),
{
    reveal_with_fuel(Opening::calls_that_succeed, 7);
    assert(opening.calls_that_succeed(most) =~= opening.configured_calls());
}

/// Opening ends well where every call succeeds and the path can be used. Where the path cannot be
/// used it ends with `Invalid`, and where the handle cannot even be made, with the error of that
/// call.
pub proof fn opening_ends_well_where_every_call_does(opening: Opening, code: i32)
    requires
        opening.stage is Create,
    ensures
        opening.result_of_success(6) == if opening.path_is_usable {
            Some(Ok::<(), Error>(()))
        } else {
            Some(Err(Error::Invalid))
        },
        code != 0 ==> match opening.stage_after(OpeningEvent::Called(code)) {
            OpeningStage::Finished { result: Err(error) } => crate::error::stands_for(error, code),
            _ => false,
        },
{
    reveal_with_fuel(Opening::result_of_success, 7);
    crate::error::only_zero_is_success(code);
}

impl Opening {
    /// The result where every call from here on succeeds, if there is one after so many calls.
    pub open spec fn result_of_success(self, most: nat) -> Option<Result<(), Error>>
        decreases most,
    {
        match self.next_action() {
            OpeningAction::Done(result) => Some(result),
            _ => if most == 0 {
                None
            } else {
                let next = Opening { stage: self.stage_after(OpeningEvent::Called(0)), ..self };
                next.result_of_success((most - 1) as nat)
            },
        }
    }
}

/// A call that fails ends opening with the error of that call, once the handle is closed.
pub proof fn a_failed_call_is_reported(opening: Opening, code: i32)
    requires
        ({
            ||| opening.stage is SetMaxReaders
            ||| opening.stage is SetMaxDbs
            ||| opening.stage is SetMapSize
            ||| opening.stage is Open
        }),
        code != 0,
    ensures
        ({
            let failed = Opening { stage: opening.stage_after(OpeningEvent::Called(code)), ..opening
            };
            let closed = Opening { stage: failed.stage_after(OpeningEvent::Closed), ..opening };
            &&& failed.next_action() == OpeningAction::Close
            &&& closed.next_action() matches OpeningAction::Done(Err(error))
            &&& crate::error::stands_for(error, code)
        }),
{
    crate::error::only_zero_is_success(code);
}

} // verus!
