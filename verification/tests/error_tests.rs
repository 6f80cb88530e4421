use mqtt_core::error::MosqError;
use mqtt_core::qos::QoS;

#[test]
fn every_code_in_range_has_its_variant() {
    assert_eq!(MosqError::from_i32(-1), MosqError::ConnPending);
    assert_eq!(MosqError::from_i32(0), MosqError::Success);
    assert_eq!(MosqError::from_i32(1), MosqError::NoMem);
    assert_eq!(MosqError::from_i32(2), MosqError::Protocol);
    assert_eq!(MosqError::from_i32(3), MosqError::Inval);
    assert_eq!(MosqError::from_i32(4), MosqError::NoConn);
    assert_eq!(MosqError::from_i32(5), MosqError::ConnRefused);
    assert_eq!(MosqError::from_i32(6), MosqError::NotFound);
    assert_eq!(MosqError::from_i32(7), MosqError::ConnLost);
    assert_eq!(MosqError::from_i32(8), MosqError::TLS);
    assert_eq!(MosqError::from_i32(9), MosqError::PayloadSize);
    assert_eq!(MosqError::from_i32(10), MosqError::NotSupported);
    assert_eq!(MosqError::from_i32(11), MosqError::Auth);
    assert_eq!(MosqError::from_i32(12), MosqError::ACLDenied);
    assert_eq!(MosqError::from_i32(13), MosqError::Unknown);
    assert_eq!(MosqError::from_i32(14), MosqError::ErrNo);
    assert_eq!(MosqError::from_i32(15), MosqError::EAI);
    assert_eq!(MosqError::from_i32(16), MosqError::Proxy);
}

#[test]
fn out_of_range_codes_map_to_unknown() {
    assert_eq!(MosqError::from_i32(-2), MosqError::Unknown);
    assert_eq!(MosqError::from_i32(17), MosqError::Unknown);
    assert_eq!(MosqError::from_i32(i32::MIN), MosqError::Unknown);
    assert_eq!(MosqError::from_i32(i32::MAX), MosqError::Unknown);
}

#[test]
fn only_success_turns_into_ok() {
    assert_eq!(MosqError::Success.to_res(), Ok("Success".to_string()));
    assert_eq!(
        MosqError::ConnPending.to_res(),
        Err("Error: connection pending".to_string())
    );
    assert_eq!(MosqError::NoMem.to_res(), Err("Error: no memory".to_string()));
    assert_eq!(MosqError::Protocol.to_res(), Err("Error: protocol".to_string()));
    assert_eq!(MosqError::Inval.to_res(), Err("Error: invalid".to_string()));
    assert_eq!(MosqError::NoConn.to_res(), Err("Error: no connection".to_string()));
    assert_eq!(
        MosqError::ConnRefused.to_res(),
        Err("Error: connection refused".to_string())
    );
    assert_eq!(MosqError::NotFound.to_res(), Err("Error: not found".to_string()));
    assert_eq!(
        MosqError::ConnLost.to_res(),
        Err("Error: connection lost".to_string())
    );
    assert_eq!(MosqError::TLS.to_res(), Err("Error: TLS error".to_string()));
    assert_eq!(
        MosqError::PayloadSize.to_res(),
        Err("Error: payload size error".to_string())
    );
    assert_eq!(
        MosqError::NotSupported.to_res(),
        Err("Error: not supported".to_string())
    );
    assert_eq!(MosqError::Auth.to_res(), Err("Error: authentication".to_string()));
    assert_eq!(MosqError::ACLDenied.to_res(), Err("Error: ACL denied".to_string()));
    assert_eq!(MosqError::Unknown.to_res(), Err("Error: unknown".to_string()));
    assert_eq!(MosqError::ErrNo.to_res(), Err("Error: ErrNo".to_string()));
    assert_eq!(MosqError::EAI.to_res(), Err("Error: EAI".to_string()));
    assert_eq!(MosqError::Proxy.to_res(), Err("Error: proxy".to_string()));
}

#[test]
fn qos_levels_on_the_wire() {
    assert_eq!(QoS::AtMostOnce.to_i32(), 0);
    assert_eq!(QoS::AtLeastOnce.to_i32(), 1);
    assert_eq!(QoS::ExactlyOnce.to_i32(), 2);
    assert_eq!(QoS::from_level(0), Some(QoS::AtMostOnce));
    assert_eq!(QoS::from_level(1), Some(QoS::AtLeastOnce));
    assert_eq!(QoS::from_level(2), Some(QoS::ExactlyOnce));
    assert_eq!(QoS::from_level(3), None);
}
