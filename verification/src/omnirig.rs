use vstd::prelude::*;

verus! {

// Stub rig-control backend for the OmniRig COM server.  It is wired into
// the application but performs no rig control: connecting is refused with a
// descriptive error, and tuning fails until a connection exists.

/// Why a rig-control operation failed.
#[derive(Debug)]
pub enum RadioError {
    ConnectionFailed(String),
    NotConnected,
}

/// Operating mode a tune request asks for.
#[derive(Debug, Clone, Copy, PartialEq, Eq, Structural)]
pub enum RadioMode {
    Cw,
    Ssb,
    Rtty,
}

pub type RadioResult<T> = Result<T, RadioError>;

/// Controller for the OmniRig COM server.
pub struct OmniRigController {
    rig_number: u8,
    connected: bool,
}

impl OmniRigController {
    pub closed spec fn spec_rig_number(self) -> u8 {
        self.rig_number
    }

    pub closed spec fn spec_connected(self) -> bool {
        self.connected
    }

    pub fn new(rig_number: u8) -> (r: Self)
        ensures
            r.spec_rig_number() == rig_number,
            !r.spec_connected(),
    {
        OmniRigController { rig_number, connected: false }
    }

    pub fn is_connected(&self) -> (r: bool)
        ensures
            r == self.spec_connected(),
    {
        self.connected
    }

    /// Rig control through this backend is unavailable: every attempt is
    /// refused with an explanatory error and the controller stays
    /// disconnected.
    pub fn connect(&mut self) -> (r: RadioResult<()>)
        ensures
            *final(self) == *old(self),
            r matches Err(RadioError::ConnectionFailed(t)) && t@
                == "OmniRig support not yet implemented. Please use rigctld."@,
    {
        Err(
            RadioError::ConnectionFailed(
                String::from_str("OmniRig support not yet implemented. Please use rigctld."),
            ),
        )
    }

    pub fn disconnect(&mut self)
        ensures
            !final(self).spec_connected(),
            final(self).spec_rig_number() == old(self).spec_rig_number(),
    {
        self.connected = false;
    }

    /// Tuning needs a connected rig, and this backend never connects.
    pub fn tune(&mut self, _frequency_mkhz: u64, _mode: RadioMode) -> (r: RadioResult<()>)
        ensures
            *final(self) == *old(self),
            r matches Err(RadioError::NotConnected),
    {
        Err(RadioError::NotConnected)
    }

    pub fn backend_name(&self) -> (r: &'static str)
        ensures
            r@ == "OmniRig"@,
    {
        "OmniRig"
    }
}

} // verus!
