use vstd::prelude::*;
use vstd::std_specs::convert::FromSpecImpl;

verus! {

pub type LevelResult<T, E> = Result<T, E>;

pub type LevelInsertionResult = LevelResult<(), LevelInsertionError>;

pub type LevelExpansionResult = LevelResult<(), LevelExpansionError>;

pub type LevelUpdateResult = LevelResult<Vec<u8>, LevelUpdateError>;

pub type LevelRemapResult = Result<(), LevelMapError>;

pub type LevelClearResult = LevelRemapResult;

/// `std::io::Error`: the library carries errors of this type along and
/// knows nothing of what they hold.
#[verifier::external_type_specification]
#[verifier::external_body]
pub struct ExIoError(std::io::Error);

/// An I/O error in level hash.
#[derive(Debug)]
pub struct StdIOError {
    pub message: Option<String>,
    pub error: std::io::Error,
}

impl StdIOError {
    /// Create a new IO error with the given message.
    pub fn with_message(message: String, error: std::io::Error) -> (r: Self)
        ensures
            r.message == Some(message),
            r.error == error,
    {
        Self::new(Some(message), error)
    }

    /// Create a new IO error with an optional message.
    pub fn new(message: Option<String>, error: std::io::Error) -> (r: Self)
        ensures
            r.message == message,
            r.error == error,
    {
        StdIOError { message, error }
    }
}

/// Level hash error enumeration.
#[derive(Debug)]
pub enum LevelInitError {
    /// An error caused due to IO operations.
    IOError(StdIOError),
    /// An error occured during memory mapping.
    MmapError(LevelMapError),
    /// An error caused due to invalid arguments.
    InvalidArg(String),
}

/// Error occured during an insertion operation in level hash.
#[derive(Debug)]
pub enum LevelInsertionError {
    /// Occurs when an entry with a given key already exists.
    DuplicateKey,
    /// Occurs when the auto-expand fails.
    ExpansionFailure,
    /// Occurs when the level hash is full.
    LevelOverflow,
    /// Occurs when there is an error memory mapping/remapping a file.
    MmapError(LevelMapError),
    /// Occurs when the level hash fails to move an entry between buckets to
    /// make space for a new entry.
    MovementFailure,
    /// Occurs when an entry cannot be inserted into the level hash: every
    /// slot that the key may take is occupied, and no occupant could be moved
    /// out of the way.
    InsertionFailure,
}

#[derive(Debug)]
pub enum LevelUpdateError {
    /// Error indicating that the slot for the given key was not found.
    SlotNotFound,
    /// Error indicating the slot was found, but was empty (did not point to a value).
    SlotEmpty,
    /// Error indicating the entry being updated was not occupied.
    EntryNotOccupied,
    /// Error indicating there was an error inserting the new value to the entry.
    InsertionErr(LevelInsertionError),
}

#[derive(Debug)]
pub enum LevelExpansionError {
    /// Occurs when the level hash already has the maximum level size and cannot be expanded further
    MaxLevelSizeReached,
    /// Occurs when level hash fails to expand the memory mapped file.
    MmapError(LevelMapError),
    /// An update error occurred while moving slots
    UpdateError(LevelUpdateError),
    /// Occurs when trying to expand the level hash while another hash-level operation is in progress.
    /// This hash-level operation can be another expand operation or the clear operation.
    ConcurrentModificationError,
}

/// Error occured during memory-mapping a file.
#[derive(Debug)]
pub enum LevelMapError {
    IOError(StdIOError),
}

pub trait IntoLevelIOErr<T> {
    fn into_lvl_io_err(self) -> Result<T, StdIOError>;

    fn into_lvl_io_e_msg(self, msg: String) -> LevelResult<T, StdIOError>;
}

pub trait IntoLevelInitErr<T> {
    fn into_lvl_init_err(self) -> LevelResult<T, LevelInitError>;
}

pub trait IntoLevelInsertionErr<T> {
    fn into_lvl_ins_err(self) -> LevelResult<T, LevelInsertionError>;
}

pub trait IntoLevelUpdateErr<T> {
    fn into_lvl_upd_err(self) -> LevelResult<T, LevelUpdateError>;
}

pub trait IntoLevelMapErr<T> {
    fn into_lvl_mmap_err(self) -> LevelResult<T, LevelMapError>;
}

pub trait IntoLevelExpErr<T> {
    fn into_lvl_exp_err(self) -> LevelResult<T, LevelExpansionError>;
}

impl<T> IntoLevelIOErr<T> for LevelResult<T, std::io::Error> {
    fn into_lvl_io_err(self) -> (r: Result<T, StdIOError>)
        ensures
            r == match self {
                Ok(v) => Ok::<T, StdIOError>(v),
                Err(e) => Err((StdIOError { message: None, error: e })),
            },
    {
        match self {
            Ok(v) => Ok(v),
            Err(e) => Err(StdIOError::new(None, e)),
        }
    }

    fn into_lvl_io_e_msg(self, msg: String) -> (r: Result<T, StdIOError>)
        ensures
            r == match self {
                Ok(v) => Ok::<T, StdIOError>(v),
                Err(e) => Err((StdIOError { message: Some(msg), error: e })),
            },
    {
        match self {
            Ok(v) => Ok(v),
            Err(e) => Err(StdIOError::with_message(msg, e)),
        }
    }
}

impl<T> IntoLevelInitErr<T> for LevelResult<T, StdIOError> {
    fn into_lvl_init_err(self) -> (r: LevelResult<T, LevelInitError>)
        ensures
            r == match self {
                Ok(v) => Ok::<T, LevelInitError>(v),
                Err(e) => Err(LevelInitError::IOError(e)),
            },
    {
        match self {
            Ok(v) => Ok(v),
            Err(e) => Err(LevelInitError::IOError(e)),
        }
    }
}

impl<T> IntoLevelInitErr<T> for LevelResult<T, LevelMapError> {
    fn into_lvl_init_err(self) -> (r: LevelResult<T, LevelInitError>)
        ensures
            r == match self {
                Ok(v) => Ok::<T, LevelInitError>(v),
                Err(e) => Err(LevelInitError::MmapError(e)),
            },
    {
        match self {
            Ok(v) => Ok(v),
            Err(e) => Err(LevelInitError::MmapError(e)),
        }
    }
}

impl<T> IntoLevelInsertionErr<T> for LevelResult<T, LevelMapError> {
    fn into_lvl_ins_err(self) -> (r: LevelResult<T, LevelInsertionError>)
        ensures
            r == match self {
                Ok(v) => Ok::<T, LevelInsertionError>(v),
                Err(e) => Err(LevelInsertionError::MmapError(e)),
            },
    {
        match self {
            Ok(v) => Ok(v),
            Err(e) => Err(LevelInsertionError::MmapError(e)),
        }
    }
}

impl<T> IntoLevelUpdateErr<T> for LevelResult<T, LevelInsertionError> {
    fn into_lvl_upd_err(self) -> (r: LevelResult<T, LevelUpdateError>)
        ensures
            r == match self {
                Ok(v) => Ok::<T, LevelUpdateError>(v),
                Err(e) => Err(LevelUpdateError::InsertionErr(e)),
            },
    {
        match self {
            Ok(v) => Ok(v),
            Err(e) => Err(LevelUpdateError::InsertionErr(e)),
        }
    }
}

impl<T> IntoLevelMapErr<T> for LevelResult<T, StdIOError> {
    fn into_lvl_mmap_err(self) -> (r: LevelResult<T, LevelMapError>)
        ensures
            r == match self {
                Ok(v) => Ok::<T, LevelMapError>(v),
                Err(e) => Err(LevelMapError::IOError(e)),
            },
    {
        match self {
            Ok(v) => Ok(v),
            Err(e) => Err(LevelMapError::IOError(e)),
        }
    }
}

impl<T> IntoLevelExpErr<T> for LevelResult<T, LevelMapError> {
    fn into_lvl_exp_err(self) -> (r: LevelResult<T, LevelExpansionError>)
        ensures
            r == match self {
                Ok(v) => Ok::<T, LevelExpansionError>(v),
                Err(e) => Err(LevelExpansionError::MmapError(e)),
            },
    {
        match self {
            Ok(v) => Ok(v),
            Err(e) => Err(LevelExpansionError::MmapError(e)),
        }
    }
}

impl From<StdIOError> for LevelInitError {
    fn from(value: StdIOError) -> (r: Self) {
        LevelInitError::IOError(value)
    }
}

impl FromSpecImpl<StdIOError> for LevelInitError {
    open spec fn obeys_from_spec() -> bool {
        true
    }

    open spec fn from_spec(value: StdIOError) -> Self {
        LevelInitError::IOError(value)
    }
}

impl From<StdIOError> for LevelMapError {
    fn from(value: StdIOError) -> (r: Self) {
        LevelMapError::IOError(value)
    }
}

impl FromSpecImpl<StdIOError> for LevelMapError {
    open spec fn obeys_from_spec() -> bool {
        true
    }

    open spec fn from_spec(value: StdIOError) -> Self {
        LevelMapError::IOError(value)
    }
}

impl From<LevelMapError> for LevelInitError {
    fn from(value: LevelMapError) -> (r: Self) {
        LevelInitError::MmapError(value)
    }
}

impl FromSpecImpl<LevelMapError> for LevelInitError {
    open spec fn obeys_from_spec() -> bool {
        true
    }

    open spec fn from_spec(value: LevelMapError) -> Self {
        LevelInitError::MmapError(value)
    }
}

impl From<LevelMapError> for LevelInsertionError {
    fn from(value: LevelMapError) -> (r: Self) {
        LevelInsertionError::MmapError(value)
    }
}

impl FromSpecImpl<LevelMapError> for LevelInsertionError {
    open spec fn obeys_from_spec() -> bool {
        true
    }

    open spec fn from_spec(value: LevelMapError) -> Self {
        LevelInsertionError::MmapError(value)
    }
}

impl From<LevelMapError> for LevelExpansionError {
    fn from(value: LevelMapError) -> (r: Self) {
        LevelExpansionError::MmapError(value)
    }
}

impl FromSpecImpl<LevelMapError> for LevelExpansionError {
    open spec fn obeys_from_spec() -> bool {
        true
    }

    open spec fn from_spec(value: LevelMapError) -> Self {
        LevelExpansionError::MmapError(value)
    }
}

impl From<LevelInsertionError> for LevelUpdateError {
    fn from(value: LevelInsertionError) -> (r: Self) {
        LevelUpdateError::InsertionErr(value)
    }
}

impl FromSpecImpl<LevelInsertionError> for LevelUpdateError {
    open spec fn obeys_from_spec() -> bool {
        true
    }

    open spec fn from_spec(value: LevelInsertionError) -> Self {
        LevelUpdateError::InsertionErr(value)
    }
}

impl From<LevelUpdateError> for LevelExpansionError {
    fn from(value: LevelUpdateError) -> (r: Self) {
        LevelExpansionError::UpdateError(value)
    }
}

impl FromSpecImpl<LevelUpdateError> for LevelExpansionError {
    open spec fn obeys_from_spec() -> bool {
        true
    }

    open spec fn from_spec(value: LevelUpdateError) -> Self {
        LevelExpansionError::UpdateError(value)
    }
}

impl From<std::io::Error> for StdIOError {
    fn from(value: std::io::Error) -> (r: Self) {
        Self::new(None, value)
    }
}

impl FromSpecImpl<std::io::Error> for StdIOError {
    open spec fn obeys_from_spec() -> bool {
        true
    }

    open spec fn from_spec(value: std::io::Error) -> Self {
        StdIOError { message: None, error: value }
    }
}

impl From<LevelInsertionError> for LevelExpansionError {
    fn from(value: LevelInsertionError) -> (r: Self) {
        LevelExpansionError::UpdateError(LevelUpdateError::InsertionErr(value))
    }
}

impl FromSpecImpl<LevelInsertionError> for LevelExpansionError {
    open spec fn obeys_from_spec() -> bool {
        true
    }

    open spec fn from_spec(value: LevelInsertionError) -> Self {
        LevelExpansionError::UpdateError(LevelUpdateError::InsertionErr(value))
    }
}

} // verus!
