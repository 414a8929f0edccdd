use kernel::sync::Spinlock;

#[test]
fn lock_and_unlock() {
    let mut lock = Spinlock::new(5u32);
    lock.lock();
    lock.unlock();
    lock.lock();
    lock.unlock();
}
