use rbn_core::omnirig::{OmniRigController, RadioError, RadioMode};

#[test]
fn omnirig_backend_is_a_stub() {
    let mut rig = OmniRigController::new(1);
    assert!(!rig.is_connected());
    assert_eq!(rig.backend_name(), "OmniRig");

    match rig.connect() {
        Err(RadioError::ConnectionFailed(text)) => {
            assert_eq!(text, "OmniRig support not yet implemented. Please use rigctld.");
        },
        other => panic!("expected a connection failure, got {:?}", other),
    }
    assert!(!rig.is_connected());

    assert!(matches!(rig.tune(14025000, RadioMode::Cw), Err(RadioError::NotConnected)));

    rig.disconnect();
    assert!(!rig.is_connected());
}
