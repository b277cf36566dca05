use revo::draws::Draws;

#[test]
fn packs_deal_the_buffer_cyclically() {
    let tri: Vec<u32> = vec![1, 2, 3];
    let gauss: Vec<u32> = vec![10, 20];
    let mut draws = Draws::new(tri, gauss);
    let p1 = draws.take_pack(4, 3);
    assert_eq!(p1.tri, vec![1, 2, 3, 1]);
    assert_eq!(p1.gauss, vec![10, 20, 10]);
    let p2 = draws.take_pack(2, 1);
    assert_eq!(p2.tri, vec![2, 3]);
    assert_eq!(p2.gauss, vec![20]);
}

#[test]
fn empty_buffers_deal_the_zero_pattern() {
    let mut draws = Draws::new(Vec::new(), Vec::new());
    assert_eq!(draws.next_tri(), 0);
    assert_eq!(draws.next_gauss(), 0);
    let p = draws.take_pack(2, 2);
    assert_eq!(p.tri, vec![0, 0]);
    assert_eq!(p.gauss, vec![0, 0]);
}
