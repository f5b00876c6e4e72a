//! Error codes of the sink's diagnostic channel and the fixed shape of its
//! messages.

use vstd::prelude::*;

verus! {

/// The codes under which the sink reports trouble on its diagnostic
/// channel.
#[derive(Copy, Clone, Debug, PartialEq, Eq, Structural)]
#[allow(non_camel_case_types)]
pub enum ERRCODE {
    /// Writing failed.
    Write,
    /// Flushing failed.
    Flush,
    /// The format callable failed.
    Format,
    /// A concurrency primitive was observed in a broken state.
    Poison,
    /// A recoverable file-level issue.
    LogFile,
    /// The sink is misconfigured.
    WriterSpec,
    /// A symlink could not be maintained.
    Symlink,
}

impl ERRCODE {
    /// The lower-case index token of the code, as it appears in the
    /// pointer at the end of a diagnostic message.
    pub fn as_index(self) -> (r: &'static str)
        ensures
            self is Write ==> r@ =~= seq!['w', 'r', 'i', 't', 'e'],
            self is Flush ==> r@ =~= seq!['f', 'l', 'u', 's', 'h'],
            self is Format ==> r@ =~= seq!['f', 'o', 'r', 'm', 'a', 't'],
            self is Poison ==> r@ =~= seq!['p', 'o', 'i', 's', 'o', 'n'],
            self is LogFile ==> r@ =~= seq!['l', 'o', 'g', 'f', 'i', 'l', 'e'],
            self is WriterSpec ==> r@ =~= seq![
                'w',
                'r',
                'i',
                't',
                'e',
                'r',
                's',
                'p',
                'e',
                'c',
            ],
            self is Symlink ==> r@ =~= seq!['s', 'y', 'm', 'l', 'i', 'n', 'k'],
    {
        proof {
            reveal_strlit("write");
            reveal_strlit("flush");
            reveal_strlit("format");
            reveal_strlit("poison");
            reveal_strlit("logfile");
            reveal_strlit("writerspec");
            reveal_strlit("symlink");
        }
        match self {
            Self::Write => "write",
            Self::Flush => "flush",
            Self::Format => "format",
            Self::Poison => "poison",
            Self::LogFile => "logfile",
            Self::WriterSpec => "writerspec",
            Self::Symlink => "symlink",
        }
    }
}

} // verus!
