use flico::si::{fmt_si, si_decimals, si_form, SiForm, SiPrefix};

fn text(value: f64, unit: &str) -> String {
    let form = si_form(value.to_bits());
    let number = match form {
        SiForm::Scaled(prefix) => {
            let v = value * f64::from_bits(prefix.scale());
            format!("{:.*}", si_decimals(v.to_bits()), v)
        }
        _ => String::new(),
    };
    fmt_si(form, &number, unit)
}

#[test]
fn values_with_prefixes() {
    assert_eq!(text(1.234e-3, "s"), "1.23 ms");
    assert_eq!(text(8000.0, "Hz"), "8.00 kHz");
    assert_eq!(text(-5.0, "s"), "-5.00 s");
    assert_eq!(text(2.5e6, "Hz"), "2.50 MHz");
    assert_eq!(text(13.5e-6, "A"), "13.5 \u{03BC}A");
    assert_eq!(text(318e-9, "A"), "318 nA");
}

#[test]
fn smaller_than_a_nano_keeps_three_figures() {
    assert_eq!(text(5e-10, "A"), "0.500 nA");
    assert_eq!(text(-1.23e-11, "A"), "-0.0123 nA");
    assert_eq!(text(1e-12, "A"), "0.00100 nA");
    assert_eq!(text(4.56e-21, "A"), "0.00000000000456 nA");
}

#[test]
fn zero_and_what_is_no_number() {
    assert_eq!(text(0.0, "s"), "0 s");
    assert_eq!(text(-0.0, "s"), "0 s");
    assert_eq!(text(f64::NAN, "A"), "\u{2014} A");
    assert_eq!(text(f64::INFINITY, "A"), "\u{2014} A");
    assert_eq!(text(f64::NEG_INFINITY, "A"), "\u{2014} A");
}

#[test]
fn prefixes_at_their_limits() {
    let form = |v: f64| si_form(v.to_bits());
    assert_eq!(form(1e6), SiForm::Scaled(SiPrefix::Mega));
    assert_eq!(form(999_999.9), SiForm::Scaled(SiPrefix::Kilo));
    assert_eq!(form(1e3), SiForm::Scaled(SiPrefix::Kilo));
    assert_eq!(form(999.9), SiForm::Scaled(SiPrefix::One));
    assert_eq!(form(1.0), SiForm::Scaled(SiPrefix::One));
    assert_eq!(form(0.999), SiForm::Scaled(SiPrefix::Milli));
    assert_eq!(form(1e-3), SiForm::Scaled(SiPrefix::Milli));
    assert_eq!(form(9.99e-4), SiForm::Scaled(SiPrefix::Micro));
    assert_eq!(form(1e-6), SiForm::Scaled(SiPrefix::Micro));
    assert_eq!(form(9.99e-7), SiForm::Scaled(SiPrefix::Nano));
    assert_eq!(form(1e-9), SiForm::Scaled(SiPrefix::Nano));
    assert_eq!(form(9.99e-10), SiForm::Scaled(SiPrefix::Nano));
}

#[test]
fn sign_changes_neither_form_nor_decimals() {
    for v in [1e7, 4200.0, 99.9, 1.0, 2e-5, 3e-11] {
        let (plus, minus) = ((v as f64).to_bits(), (-(v as f64)).to_bits());
        assert_eq!(si_form(plus), si_form(minus));
        assert_eq!(si_decimals(plus), si_decimals(minus));
    }
}

#[test]
fn decimals_make_three_figures() {
    assert_eq!(si_decimals(100.0f64.to_bits()), 0);
    assert_eq!(si_decimals(99.9f64.to_bits()), 1);
    assert_eq!(si_decimals(10.0f64.to_bits()), 1);
    assert_eq!(si_decimals(9.99f64.to_bits()), 2);
    assert_eq!(si_decimals(1.0f64.to_bits()), 2);
    assert_eq!(si_decimals(0.999f64.to_bits()), 3);
    assert_eq!(si_decimals(0.5f64.to_bits()), 3);
    assert_eq!(si_decimals(0.1f64.to_bits()), 3);
    assert_eq!(si_decimals(0.0999f64.to_bits()), 4);
    assert_eq!(si_decimals(0.05f64.to_bits()), 4);
    assert_eq!(si_decimals(2e-20f64.to_bits()), 22);
    assert_eq!(si_decimals(2e-308f64.to_bits()), 310);
    assert_eq!(si_decimals(5e-324f64.to_bits()), 326);
    assert_eq!(si_decimals(0.0f64.to_bits()), 2);
    assert_eq!(si_decimals(f64::NAN.to_bits()), 2);
}
