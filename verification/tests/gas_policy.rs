use zaphenath::gas::{
    apply_buffer, buffered_gas, decide_gas, parse_buffer, GasBuffer, GasPlan, GasSpecs,
};

#[test]
fn buffer_scales_and_floors_the_estimate() {
    // buffered = floor(estimate * buffer)
    assert_eq!(buffered_gas(1000, GasBuffer { milli: 1200 }), 1200);
    assert_eq!(buffered_gas(1001, GasBuffer { milli: 1100 }), 1101); // floor(1101.1)
    assert_eq!(buffered_gas(3, GasBuffer { milli: 1500 }), 4); // floor(4.5)
    assert_eq!(buffered_gas(0, GasBuffer { milli: 9000 }), 0);
    assert_eq!(buffered_gas(21000, GasBuffer { milli: 1000 }), 21000);
}

#[test]
fn omitted_buffer_keeps_the_estimate() {
    assert_eq!(apply_buffer(21000, &None), 21000);
    assert_eq!(apply_buffer(21000, &Some(GasBuffer { milli: 1200 })), 25200);
}

#[test]
fn buffered_gas_saturates_at_the_limit() {
    assert_eq!(buffered_gas(u64::MAX, GasBuffer { milli: 2000 }), u64::MAX);
}

#[test]
fn parse_buffer_reads_decimal_multipliers() {
    assert_eq!(parse_buffer("1.2"), Some(GasBuffer { milli: 1200 }));
    assert_eq!(parse_buffer("1.0"), Some(GasBuffer { milli: 1000 }));
    assert_eq!(parse_buffer("1.1"), Some(GasBuffer { milli: 1100 }));
    assert_eq!(parse_buffer("2"), Some(GasBuffer { milli: 2000 }));
    assert_eq!(parse_buffer("0.05"), Some(GasBuffer { milli: 50 }));
    assert_eq!(parse_buffer("1.25"), Some(GasBuffer { milli: 1250 }));
    assert_eq!(parse_buffer("1.125"), Some(GasBuffer { milli: 1125 }));
}

#[test]
fn parse_buffer_rejects_malformed_input() {
    assert_eq!(parse_buffer(""), None);
    assert_eq!(parse_buffer("abc"), None);
    assert_eq!(parse_buffer("1."), None);
    assert_eq!(parse_buffer(".5"), None);
    assert_eq!(parse_buffer("1.2345"), None);
    assert_eq!(parse_buffer("1.2.3"), None);
    assert_eq!(parse_buffer("-1"), None);
    assert_eq!(parse_buffer("99999999999999999999999"), None);
}

#[test]
fn gas_decision_order() {
    // an explicit limit wins outright
    let p = decide_gas(
        &GasSpecs { gas_limit: Some(30000), gas_buffer: Some(GasBuffer { milli: 1200 }) },
        true,
    );
    assert_eq!(p, GasPlan::Fixed(30000));
    // no buffer and auto-confirm: defer estimation to the node
    let p = decide_gas(&GasSpecs { gas_limit: None, gas_buffer: None }, true);
    assert_eq!(p, GasPlan::Deferred);
    // a buffer forces an estimate even with auto-confirm
    let p = decide_gas(
        &GasSpecs { gas_limit: None, gas_buffer: Some(GasBuffer { milli: 1100 }) },
        true,
    );
    assert_eq!(p, GasPlan::Estimate { buffer: Some(GasBuffer { milli: 1100 }), confirm: false });
    // without auto-confirm the operator is asked
    let p = decide_gas(&GasSpecs { gas_limit: None, gas_buffer: None }, false);
    assert_eq!(p, GasPlan::Estimate { buffer: None, confirm: true });
}
