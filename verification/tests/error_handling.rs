use ethernetip::cip::CipError;
use ethernetip::types::CipValue;

#[test]
fn error_handling_map_status_codes() {
    assert!(matches!(CipError::from(0x01), CipError::ConnectionFailure));
    assert!(matches!(CipError::from(0x05), CipError::PathSegmentError));
    assert!(matches!(
        CipError::from(0x06),
        CipError::PathDestinationUnknown
    ));
    assert!(matches!(
        CipError::from(0xAB),
        CipError::VendorSpecific(0xAB)
    ));
}

#[test]
fn type_mismatch_error_formats_correctly() {
    let err = CipError::TypeMismatch {
        expected: "DINT",
        actual: "REAL",
    };

    let msg = err.to_string();
    assert_eq!(msg, "Type mismatch: expected DINT, got REAL");
}

#[test]
fn cip_error_display_variants() {
    assert_eq!(
        CipError::ConnectionFailure.to_string(),
        "Connection failure (0x01)"
    );
    assert_eq!(
        CipError::ResourceUnavailable.to_string(),
        "Resource unavailable (0x02)"
    );
    assert_eq!(
        CipError::InvalidAttribute.to_string(),
        "Invalid attribute (0x04)"
    );
    assert_eq!(
        CipError::PathSegmentError.to_string(),
        "Path segment error (0x05)"
    );
    assert_eq!(
        CipError::PathDestinationUnknown.to_string(),
        "Path destination unknown (0x06)"
    );
    assert_eq!(
        CipError::VendorSpecific(0xFF).to_string(),
        "Vendor-specific CIP error 0xFF"
    );
}

#[test]
fn cip_value_type_name() {
    assert_eq!(CipValue::Bool(true).type_label(), "BOOL");
    assert_eq!(CipValue::SInt(1).type_label(), "SINT");
    assert_eq!(CipValue::Int(1).type_label(), "INT");
    assert_eq!(CipValue::DInt(1).type_label(), "DINT");
    assert_eq!(CipValue::LInt(1).type_label(), "LINT");
    assert_eq!(CipValue::Real(1.0f32.to_bits()).type_label(), "REAL");
    assert_eq!(CipValue::String("x".into()).type_label(), "STRING");
    assert_eq!(CipValue::BoolPacked(vec![1]).type_label(), "BOOL_PACKED");
    assert_eq!(CipValue::Unit.type_label(), "UNIT");
}

#[test]
fn io_error_message() {
    assert_eq!(CipError::Io("broken pipe".to_string()).to_string(), "I/O error: broken pipe");
}
