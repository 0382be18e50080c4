//! Calibration values.

use m1_eval::calib::Calibration;
use m1_eval::error::EvalError;
use m1_eval::float::binary32::F32;
use m1_eval::value::{FixedPoint7dps, M1Scalar};


fn f(value: f32) -> M1Scalar {
    M1Scalar::FloatingPoint(F32::from_bits(value.to_bits()))
}

/// Synthetic 2-D table + scalar, mirroring the m1cfg fixture shape:
/// `<Configuration>` root with `<Parameter>`/`<Table>` entries.
const XML: &str = r#"<Configuration>
  <Parameter Name="Root.A.Gain"><Cell Type="f32">2.5</Cell></Parameter>
  <Table Name="Root.A.Map">
    <X><Cells Type="f32" Unit="rpm"><Cell>0</Cell><Cell>100</Cell></Cells></X>
    <Y><Cells Type="f32" Unit="%"><Cell>0</Cell><Cell>1</Cell></Cells></Y>
    <Body><Cells Type="f32"><Cell>10</Cell><Cell>20</Cell><Cell>30</Cell><Cell>40</Cell></Cells></Body>
  </Table>
</Configuration>"#;

#[test]
fn reads_param_and_table() {
    let c = Calibration::from_m1cfg_str(XML).unwrap();
    assert_eq!(c.param("Root.A.Gain"), Some(f(2.5)));
    let t = c.table("Root.A.Map").unwrap();
    assert_eq!(t.axes.len(), 2);
    assert_eq!(t.axes[0], vec![f(0.0), f(100.0)]);
    assert_eq!(t.axes[1], vec![f(0.0), f(1.0)]);
    assert_eq!(t.body, vec![f(10.0), f(20.0), f(30.0), f(40.0)]);
}

/// A trimmed, *synthetic* approximation of the real export shape: root
/// `<Configuration>`, a nested `<Group>`, CDATA cell bodies, scientific
/// notation, an `enum` cell that must be skipped (not numeric), and the
/// unprefixed names real MoTeC exports use.
const REAL_SHAPE_XML: &str = r#"<?xml version="1.0"?>
<Configuration Locale="English_Australia.1252" DefaultLocale="C">
 <Group Name="">
  <Parameter Name="Outputs.Logging.LVLogging">
   <Cell Type="enum">
<![CDATA[On]]>
   </Cell>
  </Parameter>
  <Parameter Name="Outputs.Logging.Enabled">
   <Cell Type="bool"><![CDATA[true]]></Cell>
  </Parameter>
  <Parameter Name="Inputs.APPS.APPS1.Offset">
   <Cell Type="f32" Unit="V">
<![CDATA[3.67013192176818850e+000]]>
   </Cell>
  </Parameter>
  <Parameter Name="Inputs.APPS.CompareThreshold">
   <Cell Type="f32">
<![CDATA[2.00000002980232240e-001]]>
   </Cell>
  </Parameter>
 </Group>
</Configuration>"#;

#[test]
fn reads_real_export_shape() {
    let c = Calibration::from_m1cfg_str(REAL_SHAPE_XML).unwrap();
    // CDATA + scientific notation narrows to the declared binary32 value.
    assert_eq!(c.param("Inputs.APPS.APPS1.Offset"), Some(f(3.670_132_f32)));
    assert!(
        (f64::from_bits(c.param("Inputs.APPS.CompareThreshold").unwrap().wide().to_bits()) - 0.20000000298023224).abs()
            < 1e-12
    );
    // The enum cell is not a numeric calibration value: skipped, not guessed.
    assert_eq!(c.param("Outputs.Logging.LVLogging"), None);
    // Boolean storage is also outside this numeric calibration model and
    // must not make an otherwise valid configuration unloadable.
    assert_eq!(c.param("Outputs.Logging.Enabled"), None);
}

#[test]
fn malformed_xml_fails_loud() {
    let err = Calibration::from_m1cfg_str("<Configuration><Parameter>").unwrap_err();
    assert!(matches!(err, EvalError::MissingCalibration { .. }));
}

#[test]
fn empty_config_is_empty_calibration() {
    let c = Calibration::from_m1cfg_str("<Configuration/>").unwrap();
    assert!(c.params.len() == 0);
    assert!(c.tables.len() == 0);
    assert_eq!(c.param("anything"), None);
    assert!(c.table("anything").is_none());
}

#[test]
fn one_dimensional_table() {
    let xml = r#"<Configuration>
      <Table Name="Root.Curve">
        <X><Cells Type="f32"><Cell>0</Cell><Cell>1</Cell><Cell>2</Cell></Cells></X>
        <Body><Cells Type="f32"><Cell>5</Cell><Cell>15</Cell><Cell>25</Cell></Cells></Body>
      </Table>
    </Configuration>"#;
    let c = Calibration::from_m1cfg_str(xml).unwrap();
    let t = c.table("Root.Curve").unwrap();
    assert_eq!(t.axes.len(), 1);
    assert_eq!(t.axes[0], vec![f(0.0), f(1.0), f(2.0)]);
    assert_eq!(t.body, vec![f(5.0), f(15.0), f(25.0)]);
}

#[test]
fn cell_types_preserve_signedness_and_reject_width_overflow() {
    let xml = r#"<Configuration>
      <Parameter Name="Signed"><Cell Type="s32">-2147483648</Cell></Parameter>
      <Parameter Name="Unsigned"><Cell Type="u32">4294967295</Cell></Parameter>
      <Parameter Name="Fixed"><Cell Type="FixedPoint7dps">1.2345678</Cell></Parameter>
    </Configuration>"#;
    let calibration = Calibration::from_m1cfg_str(xml).unwrap();
    assert_eq!(
        calibration.param("Signed"),
        Some(M1Scalar::Integer(i32::MIN))
    );
    assert_eq!(
        calibration.param("Unsigned"),
        Some(M1Scalar::UnsignedInteger(u32::MAX))
    );
    assert_eq!(
        calibration.param("Fixed"),
        Some(M1Scalar::FixedPoint7dps(FixedPoint7dps::from_raw(
            12_345_678
        )))
    );

    let overflow = r#"<Configuration>
      <Parameter Name="Bad"><Cell Type="u32">4294967296</Cell></Parameter>
    </Configuration>"#;
    let error = Calibration::from_m1cfg_str(overflow).unwrap_err();
    assert!(error.to_text().contains("u32"), "{error:?}");

    let float_widths = r#"<Configuration>
      <Parameter Name="Tiny"><Cell Type="f32">1e-50</Cell></Parameter>
    </Configuration>"#;
    let calibration = Calibration::from_m1cfg_str(float_widths).unwrap();
    assert_eq!(calibration.param("Tiny"), Some(f(0.0)));

    let float_overflow = r#"<Configuration>
      <Parameter Name="Huge"><Cell Type="f32">1e39</Cell></Parameter>
    </Configuration>"#;
    let error = Calibration::from_m1cfg_str(float_overflow).unwrap_err();
    assert!(error.to_text().contains("f32"), "{error:?}");

    let host_overflow = r#"<Configuration>
      <Parameter Name="Huge"><Cell Type="f32">1e9999</Cell></Parameter>
    </Configuration>"#;
    let error = Calibration::from_m1cfg_str(host_overflow).unwrap_err();
    assert!(error.to_text().contains("f32"), "{error:?}");
}
