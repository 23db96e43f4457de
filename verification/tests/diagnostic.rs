use ruget::{Diagnostic, DiagnosticError, DiagnosticMetadata, GetMetadata, IntoDiagnostic};

pub struct Rainbow;

impl Diagnostic for Rainbow {
    fn label(&self) -> String {
        "critical::rainbow".into()
    }

    fn help(&self) -> Option<String> {
        Some("Rainbow.".into())
    }
}

impl GetMetadata for Rainbow {}

pub enum Critical {
    Blue(String),
    Red,
    Orange,
    Transparent(Rainbow),
}

impl Diagnostic for Critical {
    fn label(&self) -> String {
        match self {
            Critical::Blue(_) => "critical::blue".into(),
            Critical::Red => "critical::red".into(),
            Critical::Orange => "critical::orange".into(),
            Critical::Transparent(inner) => inner.label(),
        }
    }

    fn help(&self) -> Option<String> {
        match self {
            Critical::Blue(_) => Some("Blue.".into()),
            Critical::Red => Some("Red.".into()),
            Critical::Orange => Some("Orange.".into()),
            Critical::Transparent(inner) => inner.help(),
        }
    }
}

impl GetMetadata for Critical {}

#[test]
fn derive_enum_it_works() {
    let blue = Critical::Blue("test".into());
    assert_eq!("Blue.", blue.help().unwrap());
    assert_eq!("critical::blue", blue.label());

    let red = Critical::Red;
    assert_eq!("Red.", red.help().unwrap());
    assert_eq!("critical::red", red.label());

    let orange = Critical::Orange;
    assert_eq!("Orange.", orange.help().unwrap());
    assert_eq!("critical::orange", orange.label());

    let rainbow = Rainbow {};

    let transp = Critical::Transparent(rainbow);
    assert_eq!("Rainbow.", transp.help().unwrap());
    assert_eq!("critical::rainbow", transp.label());

    let described = DiagnosticError::from_diagnostic(&transp, "Critical error.".into());
    assert_eq!(described.label, "critical::rainbow");
    assert_eq!(described.help.as_deref(), Some("Rainbow."));
    assert!(described.meta.is_none());
    assert_eq!(
        described.report(),
        "critical::rainbow\n\nCritical error.\n\nhelp: Rainbow."
    );
}

#[derive(Debug, Eq, PartialEq)]
pub struct Color {
    input: Option<String>,
    field: i32,
}

impl Diagnostic for Color {
    fn label(&self) -> String {
        "color::struct".into()
    }

    fn help(&self) -> Option<String> {
        Some("Color.".into())
    }
}

impl GetMetadata for Color {
    fn meta(&self) -> Option<DiagnosticMetadata> {
        self.input.as_ref().map(|input| DiagnosticMetadata::Parse {
            input: input.clone(),
            row: 3,
            col: 14,
            path: None,
        })
    }
}

#[test]
fn derive_struct_it_works() {
    let clr = Color {
        field: 1,
        input: Some("lol".into()),
    };
    assert_eq!("color::struct", clr.label());
    assert_eq!("Color.", clr.help().unwrap());

    let described = DiagnosticError::from_diagnostic(&clr, "Colored struct.".into());
    assert_eq!(
        described.report(),
        "color::struct - line: 3, col: 14\n\nColored struct.\n\nhelp: Color."
    );
    assert_eq!(clr.field, 1);
}

#[test]
fn reports_tell_the_place() {
    let error = DiagnosticError {
        message: "no answer".into(),
        label: "net::down".into(),
        help: None,
        meta: Some(DiagnosticMetadata::Net {
            url: "https://example.org/index.json".into(),
        }),
    };
    assert_eq!(
        error.report(),
        "net::down @ https://example.org/index.json\n\nno answer"
    );
    let error = DiagnosticError {
        message: "bad text".into(),
        label: "parse::failed".into(),
        help: Some("check the file".into()),
        meta: Some(DiagnosticMetadata::Parse {
            input: "x".into(),
            row: 12,
            col: 0,
            path: Some("a/b.toml".into()),
        }),
    };
    assert_eq!(
        error.report(),
        "parse::failed - line: 12, col: 0 @ a/b.toml\n\nbad text\n\nhelp: check the file"
    );
    let error = DiagnosticError {
        message: "gone".into(),
        label: "fs::missing".into(),
        help: None,
        meta: Some(DiagnosticMetadata::Fs { path: "/tmp/x".into() }),
    };
    assert_eq!(error.report(), "fs::missing @ /tmp/x\n\ngone");
}

#[test]
fn results_take_a_label() {
    let failed: Result<u8, String> = Err("boom".into());
    let error = failed.into_diagnostic("demo::label").unwrap_err();
    assert_eq!(error.label, "demo::label");
    assert_eq!(error.message, "boom");
    assert!(error.help.is_none() && error.meta.is_none());
    let fine: Result<u8, String> = Ok(7);
    assert_eq!(fine.into_diagnostic("demo::label").unwrap(), 7);
}
