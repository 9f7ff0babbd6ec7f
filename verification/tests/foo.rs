fn add<T>(x: T, y: T) -> T
where
    T: std::ops::Add<Output = T>,
{
    x + y
}

#[test]
fn test_a() {
    assert_eq!(add(2, 3), 5);
}
