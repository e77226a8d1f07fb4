//! Checks on the content of a parsed container file. Each rule is evaluated on
//! its own, so one pass reports every problem.
use vstd::prelude::*;
use crate::document::{has_section, lookup, Document, DocumentView};

verus! {

/// A non-fatal finding: the field it concerns and what is wrong with it.
#[derive(Debug, Clone)]
pub struct ValidationError {
    pub field: String,
    pub message: String,
}

/// The set of rules a container file is checked against.
pub struct SemanticValidator;

pub open spec fn has_space(s: Seq<char>) -> bool {
    exists|i: int| 0 <= i < s.len() && s[i] == ' '
}

/// The fields of the findings on `d`, in the order the rules are listed:
/// a missing `[Container]` section (tagged `Global`); within it, a missing
/// `Image` key; and a `ContainerName` holding a space.
pub open spec fn finding_fields(d: DocumentView) -> Seq<Seq<char>> {
    if !has_section(d, "Container"@) {
        seq!["Global"@]
    } else {
        let image = if lookup(d, "Container"@, "Image"@).is_none() {
            seq!["Container.Image"@]
        } else {
            Seq::empty()
        };
        let name = match lookup(d, "Container"@, "ContainerName"@) {
            Some(n) => if has_space(n) {
                seq!["Container.ContainerName"@]
            } else {
                Seq::empty()
            },
            None => Seq::empty(),
        };
        image + name
    }
}

/// The message that goes with the finding on `field`.
pub open spec fn finding_message(field: Seq<char>) -> Seq<char> {
    if field == "Global"@ {
        "No se encontró la sección obligatoria [Container]."@
    } else if field == "Container.Image"@ {
        "La clave 'Image' es obligatoria para definir un contenedor."@
    } else {
        "El nombre del contenedor no puede contener espacios."@
    }
}

fn finding(field: &str, message: &str) -> (r: ValidationError)
    ensures
        r.field@ == field@,
        r.message@ == message@,
{
    ValidationError { field: field.to_owned(), message: message.to_owned() }
}

fn contains_space(s: &str) -> (r: bool)
    ensures
        r == has_space(s@),
{
    let mut found = false;
    for c in it: s.chars()
        invariant
            it.seq() == s@,
            found == exists|j: int| 0 <= j < it.index() && s@[j] == ' ',
    {
        if c == ' ' {
            found = true;
        }
    }
    found
}

impl SemanticValidator {
    /// Every finding on `parsed_data`; an empty result means the file is acceptable.
    pub fn validate(parsed_data: &Document) -> (r: Vec<ValidationError>)
        ensures
            r@.map_values(|e: ValidationError| e.field@) == finding_fields(parsed_data@),
            forall|i: int|
                0 <= i < r@.len() ==> (#[trigger] r@[i]).message@ == finding_message(r@[i].field@),
    {
        proof {
            reveal_strlit("Global");
            reveal_strlit("Container.Image");
            reveal_strlit("Container.ContainerName");
            assert("Global"@.len() == 6);
            assert("Container.Image"@.len() == 15);
            assert("Container.ContainerName"@.len() == 23);
            assert("Container.Image"@ != "Global"@);
            assert("Container.ContainerName"@ != "Global"@);
            assert("Container.ContainerName"@ != "Container.Image"@);
        }
        let mut errors: Vec<ValidationError> = Vec::new();
        if parsed_data.contains_section("Container") {
            if parsed_data.get("Container", "Image").is_none() {
                errors.push(
                    finding("Container.Image", "La clave 'Image' es obligatoria para definir un contenedor."),
                );
                assert(errors@[0].message@ == finding_message(errors@[0].field@));
            }
            assert(forall|i: int|
                0 <= i < errors@.len() ==> (#[trigger] errors@[i]).message@ == finding_message(
                    errors@[i].field@,
                ));
            let ghost after_image = errors@.map_values(|e: ValidationError| e.field@);
            match parsed_data.get("Container", "ContainerName") {
                Some(name) => {
                    if contains_space(name.as_str()) {
                        errors.push(
                            finding(
                                "Container.ContainerName",
                                "El nombre del contenedor no puede contener espacios.",
                            ),
                        );
                        assert(errors@.map_values(|e: ValidationError| e.field@) =~= after_image
                            + seq!["Container.ContainerName"@]);
                        let ghost last = errors@.len() - 1;
                        assert(errors@[last].message@ == finding_message(errors@[last].field@));
                    }
                },
                None => {},
            }
            assert(errors@.map_values(|e: ValidationError| e.field@) =~= finding_fields(
                parsed_data@,
            ));
        } else {
            errors.push(finding("Global", "No se encontró la sección obligatoria [Container]."));
            assert(errors@[0].message@ == finding_message(errors@[0].field@));
            assert(errors@.map_values(|e: ValidationError| e.field@) =~= finding_fields(
                parsed_data@,
            ));
        }
        errors
    }
}

} // verus!
