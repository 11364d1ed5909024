use as2::{Entity, Signer, Unsigned};

#[test]
fn the_unsigned_exchange_leaves_the_entity_as_it_is() {
    let entity = Entity::new("application/edi-x12", b"ISA*00*".to_vec());
    let wrapped = Unsigned.wrap(entity.clone()).expect("wrapped");
    assert_eq!(wrapped, entity);
    assert_eq!(Unsigned.unwrap(wrapped).expect("unwrapped"), entity);
    assert_eq!(Unsigned.micalg(), "sha-256");
}
