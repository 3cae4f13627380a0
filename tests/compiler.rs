use ioreg::codegen::{compile, generate};
use ioreg::diag::{ErrorKind, LayoutKind, SyntaxKind};
use ioreg::model::{Access, RegType, Span};
use ioreg::parse::parse;
use ioreg::validate::{check_block, validate};

const ADC: &str = "ADC_TSC = {
    0x40 => reg32 ctrl {
        0 => enable,
        6..5 => afe_pen_control,
    }
    0x54 => reg32 step_enable {
        16..1 => step_enable[16]
    }
    0x64 => group step[16] {
        0x0 => reg32 ctrl {
            22..19 => input_select,
            1..0 => mode {
                0 => SW_ONE_SHOT,
                1 => SW_CONTINUOUS,
                2 => HW_ONE_SHOT,
                3 => HW_CONTINUOUS
            }
        }
        0x4 => reg32 delay {
            31..24 => sample_delay,
            17..0 => open_delay
        }
    }
    // two data registers
    0x100 => reg32 fifo_data[2] {
        11..0 => adc_data: ro
    }
    0x108 => reg16 bsrr {
        15..0 => bs[16]: wo
    }
}";

fn text(src: &str) -> String {
    String::from_utf8(compile(src.as_bytes()).unwrap()).unwrap()
}

fn layout_kinds(src: &str) -> Vec<LayoutKind> {
    let b = parse(src.as_bytes()).unwrap();
    check_block(&b)
        .iter()
        .map(|d| match d.kind {
            ErrorKind::Layout(k) => k,
            ErrorKind::Syntax(_) => panic!("syntax error from the validator"),
        })
        .collect()
}

fn syntax_kind(src: &str) -> SyntaxKind {
    match parse(src.as_bytes()) {
        Err(d) => match d.kind {
            ErrorKind::Syntax(k) => k,
            ErrorKind::Layout(_) => panic!("layout error from the parser"),
        },
        Ok(_) => panic!("parsed"),
    }
}

#[test]
fn parses_the_adc_block() {
    let b = parse(ADC.as_bytes()).unwrap();
    assert_eq!(b.name, b"ADC_TSC".to_vec());
    assert_eq!(b.entries.len(), 5);
    let step = &b.entries[2];
    assert_eq!(step.name, b"step".to_vec());
    assert_eq!(step.offset, 0x64);
    assert_eq!(step.count, 16);
    match &step.ty {
        RegType::Group(regs) => {
            assert_eq!(regs.len(), 2);
            match &regs[0].ty {
                RegType::Prim(w, fs) => {
                    assert_eq!(*w, 32);
                    assert_eq!(fs[1].name, b"mode".to_vec());
                    assert_eq!(fs[1].variants.len(), 4);
                    assert_eq!(fs[1].variants[3].code, 3);
                    assert_eq!(fs[1].variants[3].name, b"HW_CONTINUOUS".to_vec());
                }
                RegType::Group(_) => panic!("register expected"),
            }
        }
        RegType::Prim(_, _) => panic!("group expected"),
    }
    match &b.entries[3].ty {
        RegType::Prim(_, fs) => {
            assert_eq!(fs[0].access, Access::ReadOnly);
            assert_eq!((fs[0].low_bit(), fs[0].high_bit()), (0, 11));
        }
        RegType::Group(_) => panic!("register expected"),
    }
    assert!(b.entries[3].is_array);
    assert_eq!(b.entries[3].count, 2);
}

#[test]
fn adc_block_is_valid() {
    let b = parse(ADC.as_bytes()).unwrap();
    assert!(check_block(&b).is_empty());
    assert!(validate(b).is_ok());
}

#[test]
fn group_stride_and_size() {
    let b = parse(ADC.as_bytes()).unwrap();
    match &b.entries[2].ty {
        RegType::Group(regs) => assert_eq!(ioreg::validate::stride(regs), 8),
        RegType::Prim(_, _) => panic!("group expected"),
    }
    assert_eq!(ioreg::validate::size(&b.entries[2]), 128);
    assert_eq!(ioreg::validate::size(&b.entries[3]), 8);
    assert_eq!(ioreg::validate::size(&b.entries[4]), 2);
}

#[test]
fn register_primitive_type() {
    let b = parse(ADC.as_bytes()).unwrap();
    assert_eq!(ioreg::model::reg_primitive_type_name(&b.entries[0]), Some("u32"));
    assert_eq!(ioreg::model::reg_primitive_type_name(&b.entries[4]), Some("u16"));
    assert_eq!(ioreg::model::reg_primitive_type_name(&b.entries[2]), None);
}

#[test]
fn emitted_bindings() {
    let t = text(ADC);
    assert!(t.starts_with("#[derive(Clone, Copy, Debug, PartialEq, Eq)]\npub struct IndexError;\n"));
    assert!(t.contains("pub struct ADC_TSC {\n    base: usize,\n}\n"));
    assert!(t.contains("    pub fn ctrl(&self) -> ADC_TSC_ctrl_Update {\n        ADC_TSC_ctrl_Update { addr: self.base + 64 }\n    }\n"));
    assert!(t.contains("    pub fn step(&self, index: usize) -> Result<ADC_TSC_step, IndexError> {\n        if index >= 16 {\n            return Err(IndexError);\n        }\n        Ok(ADC_TSC_step { base: self.base + 100 + index * 8 })\n    }\n"));
    assert!(t.contains("Ok(ADC_TSC_fifo_data_Update { addr: self.base + 256 + index * 4 })"));
    assert!(t.contains("    pub fn set_enable(&self, value: bool) -> &Self {\n        let w = self.get().raw();\n        self.set((w & !(1 << 0)) | (((value as u32) & 1) << 0))\n    }\n"));
    assert!(t.contains("    pub fn enable(&self) -> bool {\n        ((self.value >> 0) & 1) != 0\n    }\n"));
    assert!(t.contains("    pub fn set_step_enable(&self, index: usize, value: bool) -> Result<&Self, IndexError> {\n        if index >= 16 {\n            return Err(IndexError);\n        }\n        let s = 1 + index * 1;\n"));
    assert!(t.contains("pub enum ADC_TSC_step_ctrl_mode {\n    SW_ONE_SHOT = 0,\n    SW_CONTINUOUS = 1,\n    HW_ONE_SHOT = 2,\n    HW_CONTINUOUS = 3,\n}\n"));
    assert!(t.contains("            3 => Ok(ADC_TSC_step_ctrl_mode::HW_CONTINUOUS),\n            _ => Err(DecodeError { code: raw as u32 }),\n"));
    assert!(t.contains("    pub fn mode(&self) -> Result<ADC_TSC_step_ctrl_mode, DecodeError> {\n        ADC_TSC_step_ctrl_mode::from_raw((self.value >> 0) & 3)\n    }\n"));
    assert!(t.contains("    pub fn input_select(&self) -> u32 {\n        (self.value >> 19) & 15\n    }\n"));
    // read-only: no setter; write-only: no accessor, and no read
    assert!(!t.contains("set_adc_data"));
    assert!(t.contains("pub fn adc_data(&self) -> u32"));
    assert!(!t.contains("pub fn bs(&self"));
    assert!(t.contains("        let w = 0;\n"));
    assert!(t.contains("pub struct ADC_TSC_bsrr_Get {\n    value: u16,\n}\n"));
    assert!(t.contains("_Get { value: mmio::read::<u16>(self.addr) }"));
}

#[test]
fn generation_is_deterministic() {
    let b1 = parse(ADC.as_bytes()).unwrap();
    let b2 = parse(ADC.as_bytes()).unwrap();
    assert_eq!(generate(&b1), generate(&b2));
    assert_eq!(generate(&b1), generate(&b1));
}

#[test]
fn overlapping_fields_are_rejected_with_both_spans() {
    let src = "R = {\n    0x0 => reg32 r {\n        7..4 => high,\n        5..2 => low\n    }\n}";
    let b = parse(src.as_bytes()).unwrap();
    let (high, low) = match &b.entries[0].ty {
        RegType::Prim(_, fs) => (fs[0].span, fs[1].span),
        RegType::Group(_) => panic!("register expected"),
    };
    assert_eq!(&src[high.lo..high.hi], "7..4 => high");
    assert_eq!(&src[low.lo..low.hi], "5..2 => low");
    let ds = match validate(b) {
        Err(ds) => ds,
        Ok(_) => panic!("accepted"),
    };
    assert_eq!(ds.len(), 1);
    assert_eq!(ds[0].kind, ErrorKind::Layout(LayoutKind::FieldOverlap));
    assert_eq!(ds[0].span, low);
    assert_eq!(ds[0].other, Some(high));
    assert!(compile(src.as_bytes()).is_err());
}

#[test]
fn every_layout_error_is_reported() {
    let src = "B = {
        0x0 => reg12 odd { 0 => a }
        0x4 => reg16 half { 16 => out, 5..0 => split[4], 1..0 => m { 4 => FOUR, 1 => ONE, 1 => UNO } }
        0x8 => reg32 none[0] { 0 => a }
        0xC => group g[2] { 0x0 => group inner[1] { } }
        0x4 => reg32 clash { 0 => a }
    }";
    let kinds = layout_kinds(src);
    for k in [
        LayoutKind::UnsupportedWidth,
        LayoutKind::FieldOutOfRange,
        LayoutKind::FieldCountMismatch,
        LayoutKind::CodeTooLarge,
        LayoutKind::DuplicateCode,
        LayoutKind::FieldOverlap,
        LayoutKind::ZeroCount,
        LayoutKind::NestedGroup,
        LayoutKind::EntryOverlap,
    ] {
        assert!(kinds.contains(&k), "{:?} missing from {:?}", k, kinds);
    }
    assert!(compile(src.as_bytes()).unwrap_err().len() >= 9);
}

#[test]
fn syntax_errors() {
    assert_eq!(syntax_kind("B = { 0x0 => reg r { 0 => a } }"), SyntaxKind::MissingWidth);
    assert_eq!(syntax_kind("B = { 0x0 => reg32 r { 0 => a: rx } }"), SyntaxKind::UnknownAccess);
    assert_eq!(syntax_kind("B = { 0x0 => reg32 r { 3.4 => a } }"), SyntaxKind::MalformedBits);
    assert_eq!(syntax_kind("B = { 0x0 => reg32 r { 3.. => a } }"), SyntaxKind::MalformedBits);
    assert_eq!(syntax_kind("B = { 4294967296 => reg32 r { 0 => a } }"), SyntaxKind::IntegerTooLarge);
    assert_eq!(syntax_kind("B = { 0x0 => reg32 r { 0 => a }"), SyntaxKind::UnexpectedEnd);
    assert_eq!(syntax_kind("B = { 0x0 => reg32 r { 0 => a } } x"), SyntaxKind::UnexpectedToken);
    assert_eq!(syntax_kind(""), SyntaxKind::UnexpectedEnd);
    let d = parse(b"B = { 0x0 => reg r { } }").unwrap_err();
    assert_eq!(d.span, Span { lo: 13, hi: 16 });
    assert_eq!(d.message(), "register declaration without a width");
}

#[test]
fn line_and_column_of_a_diagnostic() {
    let src = "B = {\n  0x0 => reg r { }\n}";
    let d = parse(src.as_bytes()).unwrap_err();
    assert_eq!(d.kind, ErrorKind::Syntax(SyntaxKind::MissingWidth));
    assert_eq!(ioreg::diag::line_col(src.as_bytes(), d.span.lo), (2, 10));
    assert_eq!(ioreg::diag::line_col(src.as_bytes(), 0), (1, 1));
}

#[test]
fn accepted_forms() {
    assert!(parse(b"B = { }").is_ok());
    assert!(parse(b"B={0x0=>reg8 r{}}").is_ok());
    assert!(parse(b"B = { 0 => reg16 r { 3..0 => m { 0 => A, 1 => B, }, } } // end").is_ok());
    assert!(parse(b"// head\nB = { 0 => group g[2] { 0 => reg32 r { 0 => a: wo } } }\n").is_ok());
    assert!(parse(b"B = { 0 => reg32 r { 0 => a } } }").is_err());
    assert!(parse(b"B = { 0 => reg32 r { 0 => a, , } }").is_err());
    assert!(parse(b"B = { 0 => register r { 0 => a } }").is_err());
}

#[test]
fn hex_and_decimal_integers() {
    assert_eq!(ioreg::parse::parse_int(b"0x1F,", 0).unwrap(), (31, 4));
    assert_eq!(ioreg::parse::parse_int(b"42 ", 0).unwrap(), (42, 2));
    assert_eq!(ioreg::parse::parse_int(b"4294967295", 0).unwrap(), (u32::MAX, 10));
    assert!(ioreg::parse::parse_int(b"x", 0).is_err());
}
