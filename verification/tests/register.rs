use roomrtc::app::signaling_client::register_outcome;

#[test]
fn registration_answers() {
    assert_eq!(register_outcome("OK|msg=Registrado"), Ok(()));
    assert_eq!(register_outcome("ERROR|msg=Ya existe"), Err("Ya existe".to_string()));
    assert_eq!(register_outcome("ERROR"), Err("Error desconocido".to_string()));
    assert_eq!(register_outcome("OK|msg=Login exitoso"), Err("Respuesta inesperada del servidor".to_string()));
    assert_eq!(register_outcome(" OK| msg = Registrado "), Ok(()));
    assert_eq!(register_outcome("OK |msg=Registrado"), Err("Respuesta inesperada del servidor".to_string()));
    assert_eq!(register_outcome("USER_LIST|list="), Err("Respuesta inesperada del servidor".to_string()));
}
