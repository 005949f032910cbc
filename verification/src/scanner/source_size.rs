//! How large a source is, by what the system says of it.

use vstd::prelude::*;

use crate::text;

verus! {

/// Why the size of a source is not known.
#[derive(Debug, Clone, Copy, PartialEq, Eq, Structural)]
pub enum SizeError {
    /// The source holds nothing.
    Empty,
    /// Seeking to the end of the source failed.
    Unknown,
    /// Neither the disk driver nor seeking gave a size.
    DeviceUnknown,
}

/// What is said to the user of a size that is not known.
pub open spec fn message_of(error: SizeError) -> Seq<char> {
    match error {
        SizeError::Empty => "El origen está vacío, no hay nada que escanear"@,
        SizeError::Unknown => "No se pudo determinar el tamaño del origen"@,
        SizeError::DeviceUnknown => "No se pudo determinar el tamaño del disco físico (IOCTL_DISK_GET_LENGTH_INFO y seek fallaron)"@,
    }
}

impl SizeError {
    /// What is said to the user.
    pub fn message(self) -> (words: &'static str)
        ensures
            words@ == message_of(self),
    {
        match self {
            SizeError::Empty => "El origen está vacío, no hay nada que escanear",
            SizeError::Unknown => "No se pudo determinar el tamaño del origen",
            SizeError::DeviceUnknown => "No se pudo determinar el tamaño del disco físico (IOCTL_DISK_GET_LENGTH_INFO y seek fallaron)",
        }
    }
}

/// The path names a disk that Windows opens by its device name. Seeking to the end of one may
/// succeed and give a wrong size, so the disk driver is asked first.
pub open spec fn asks_driver(on_windows: bool, path: Seq<char>) -> bool {
    on_windows && text::is_prefix("\\\\.\\"@, path)
}

/// Size of a source, by what the disk driver says of it and where seeking to its end led.
pub open spec fn source_size(
    on_windows: bool,
    path: Seq<char>,
    driver: Option<u64>,
    end: Option<u64>,
) -> Result<u64, SizeError> {
    if asks_driver(on_windows, path) {
        match (driver, end) {
            (Some(length), _) => Ok(length),
            (None, Some(length)) => if length > 0 {
                Ok(length)
            } else {
                Err(SizeError::DeviceUnknown)
            },
            (None, None) => Err(SizeError::DeviceUnknown),
        }
    } else {
        match end {
            Some(length) => if length > 0 {
                Ok(length)
            } else {
                Err(SizeError::Empty)
            },
            None => Err(SizeError::Unknown),
        }
    }
}

/// Size of a source. `driver` is what the disk driver says, where it was asked, and `end` is where
/// seeking to the end led, each where it succeeded.
pub fn get_source_size(
    source_path: &str,
    on_windows: bool,
    driver: Option<u64>,
    end: Option<u64>,
) -> (size: Result<u64, SizeError>)
    ensures
        size == source_size(on_windows, source_path@, driver, end),
{
    if on_windows && text::starts_with(source_path, "\\\\.\\") {
        if let Some(length) = driver {
            return Ok(length);
        }
        return match end {
            Some(length) => if length > 0 {
                Ok(length)
            } else {
                Err(SizeError::DeviceUnknown)
            },
            None => Err(SizeError::DeviceUnknown),
        };
    }
    match end {
        Some(length) => if length > 0 {
            Ok(length)
        } else {
            Err(SizeError::Empty)
        },
        None => Err(SizeError::Unknown),
    }
}

/// The driver is believed where it was asked, and the end that was sought everywhere else. An end at
/// 0 is no size: an ordinary source is then empty, and a disk unknown.
pub proof fn law_the_driver_is_believed_first(
    on_windows: bool,
    path: Seq<char>,
    driver: Option<u64>,
    end: Option<u64>,
)
    ensures
        ({
            let disk = on_windows && path.len() >= 4 && path[0] == '\\' && path[1] == '\\' && path[2]
                == '.' && path[3] == '\\';
            let size = source_size(on_windows, path, driver, end);
            &&& disk && driver is Some ==> size == Ok::<u64, SizeError>(driver->0)
            &&& !disk || driver is None ==> {
                &&& size matches Ok(length) ==> length > 0 && end == Some(length)
                &&& (size matches Err(error) ==> {
                    &&& end is None || end == Some(0u64)
                    &&& error == SizeError::DeviceUnknown <==> disk
                    &&& error == SizeError::Empty <==> !disk && end is Some
                })
            }
        }),
{
    reveal_strlit("\\\\.\\");
    let dot = "\\\\.\\"@;
    assert(dot.len() == 4 && dot[0] == '\\' && dot[1] == '\\' && dot[2] == '.' && dot[3] == '\\');
    if path.len() >= 4 {
        let head = path.take(4);
        assert(head[0] == path[0] && head[1] == path[1] && head[2] == path[2] && head[3] == path[3]);
        if head != dot {
            assert(!(head =~= dot));
        }
    }
}

} // verus!
