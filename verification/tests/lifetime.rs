use despatma_dependency_container::lifetime::Lifetime;
use proc_macro2::Span;

#[test]
fn lifetimes_compare_by_kind_only() {
    let a = Lifetime::Scoped(Span::call_site());
    let b = Lifetime::Scoped(Span::mixed_site());
    assert_eq!(a, b);
    assert_eq!(
        Lifetime::Singleton(Span::call_site()),
        Lifetime::Singleton(Span::mixed_site())
    );
    assert_eq!(Lifetime::Transient, Lifetime::Transient);
    assert_ne!(Lifetime::Transient, Lifetime::Scoped(Span::call_site()));
    assert_ne!(Lifetime::Scoped(Span::call_site()), Lifetime::Singleton(Span::call_site()));
}

#[test]
fn only_transient_is_unmanaged() {
    assert!(!Lifetime::Transient.is_managed());
    assert!(Lifetime::Scoped(Span::call_site()).is_managed());
    assert!(Lifetime::Singleton(Span::call_site()).is_managed());
}
