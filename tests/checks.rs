use quadly::parser::parse_quadlet;
use quadly::validator::SemanticValidator;

fn fields(text: &str) -> Vec<String> {
    let d = parse_quadlet(text).unwrap();
    SemanticValidator::validate(&d).into_iter().map(|e| e.field).collect()
}

#[test]
fn missing_container_section_is_one_global_finding() {
    assert_eq!(fields("[Unit]\nDescription=x\n"), vec!["Global".to_string()]);
    let d = parse_quadlet("[Unit]\n").unwrap();
    assert_eq!(
        SemanticValidator::validate(&d)[0].message,
        "No se encontró la sección obligatoria [Container]."
    );
}

#[test]
fn missing_image_is_one_finding() {
    assert_eq!(fields("[Container]\nContainerName=web\n"), vec!["Container.Image".to_string()]);
}

#[test]
fn container_name_with_space_is_one_finding() {
    assert_eq!(
        fields("[Container]\nImage=x\nContainerName=my app\n"),
        vec!["Container.ContainerName".to_string()]
    );
}

#[test]
fn well_formed_container_has_no_findings() {
    assert!(fields("[Container]\nImage=x\nContainerName=myapp\n").is_empty());
}

#[test]
fn all_rules_are_reported_together() {
    let d = parse_quadlet("[Container]\nContainerName=my app\n").unwrap();
    let found = SemanticValidator::validate(&d);
    assert_eq!(found.len(), 2);
    assert_eq!(found[0].field, "Container.Image");
    assert_eq!(found[0].message, "La clave 'Image' es obligatoria para definir un contenedor.");
    assert_eq!(found[1].field, "Container.ContainerName");
    assert_eq!(found[1].message, "El nombre del contenedor no puede contener espacios.");
}
