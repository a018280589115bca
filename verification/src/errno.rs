//! The system error numbers the dispatcher tells apart.

use vstd::prelude::*;

verus! {

/// The target's numbers for the failures that are handled apart from all others.
#[derive(Clone, Copy, PartialEq, Eq, Structural, Debug)]
pub struct Errnos {
    /// The interface behind a packet socket went away.
    pub enetdown: i32,
    /// The device behind a descriptor went away.
    pub enxio: i32,
    /// A frame is larger than the interface can carry.
    pub emsgsize: i32,
}

impl Errnos {
    /// Whether these are the numbers of some Linux target.
    pub open spec fn linux(self) -> bool {
        &&& self.enetdown == 100 || self.enetdown == 127 || self.enetdown == 50
        &&& self.enxio == 6
        &&& self.emsgsize == 90 || self.emsgsize == 97 || self.emsgsize == 40
    }

    /// The numbers of the target this is compiled for.
    pub fn of_target() -> (r: Self)
        ensures
            r.linux(),
    {
        Errnos { enetdown: enetdown(), enxio: enxio(), emsgsize: emsgsize() }
    }

    /// Whether a capture's read failure says that its interface is gone.
    pub open spec fn lost_interface_spec(self, errno: Option<i32>) -> bool {
        errno == Some(self.enetdown) || errno == Some(self.enxio)
    }

    /// Whether a capture's read failure says that its interface is gone: a destroyed interface
    /// parks one of these two numbers on the descriptor.
    pub fn lost_interface(&self, errno: Option<i32>) -> (r: bool)
        ensures
            r == self.lost_interface_spec(errno),
    {
        match errno {
            Some(e) => e == self.enetdown || e == self.enxio,
            None => false,
        }
    }
}

/// `libc::ENETDOWN`. Its value is 100 on most Linux targets, 127 on MIPS, and 50 on SPARC.
#[verifier::external_body]
fn enetdown() -> (r: i32)
    ensures
        r == 100 || r == 127 || r == 50,
{
    libc::ENETDOWN
}

/// `libc::ENXIO`, which is 6 on every Linux target.
#[verifier::external_body]
fn enxio() -> (r: i32)
    ensures
        r == 6,
{
    libc::ENXIO
}

/// `libc::EMSGSIZE`. Its value is 90 on most Linux targets, 97 on MIPS, and 40 on SPARC.
#[verifier::external_body]
fn emsgsize() -> (r: i32)
    ensures
        r == 90 || r == 97 || r == 40,
{
    libc::EMSGSIZE
}

/// A frame refused for its size never reads as a lost interface.
pub proof fn law_a_size_refusal_is_no_lost_interface(errnos: Errnos)
    requires
        errnos.linux(),
    ensures
        !errnos.lost_interface_spec(Some(errnos.emsgsize)),
{
}

/// A read failure says that the interface is gone exactly if it carries one of the two numbers for that; one
/// without a number says nothing.
pub proof fn law_only_two_numbers_mean_a_lost_interface(errnos: Errnos, number: i32)
    ensures
        errnos.lost_interface_spec(Some(errnos.enetdown)),
        errnos.lost_interface_spec(Some(errnos.enxio)),
        number != errnos.enetdown && number != errnos.enxio ==> !errnos.lost_interface_spec(
            Some(number),
        ),
        !errnos.lost_interface_spec(None),
{
}

/// On every Linux target the three numbers are positive and differ from one another, and `ENXIO` is 6.
pub proof fn law_the_numbers_of_linux_are_apart(errnos: Errnos)
    requires
        errnos.linux(),
    ensures
        errnos.enxio == 6,
        errnos.enetdown == 100 || errnos.enetdown == 127 || errnos.enetdown == 50,
        errnos.emsgsize == 90 || errnos.emsgsize == 97 || errnos.emsgsize == 40,
        errnos.enetdown != errnos.enxio,
        errnos.enetdown != errnos.emsgsize,
        errnos.enxio != errnos.emsgsize,
{
}

}
