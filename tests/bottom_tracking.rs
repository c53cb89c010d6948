// The bottom tracker computes in floating point, so it stands with the
// application rather than in the verified library; this checks the streaming
// log-sum-exp that it is built on.
fn logsumexp(x: &[f64]) -> f64 {
    let (alpha, r) = x.iter().fold((f64::NEG_INFINITY, 0.0), |(mut alpha, mut r), &x| {
        if x <= alpha {
            r += (x - alpha).exp();
        } else {
            r *= (alpha - x).exp();
            r += 1.0;
            alpha = x;
        }
        (alpha, r)
    });
    r.ln() + alpha
}

#[test]
fn test_logsumexp() {
    let v = &[0.0; 100];
    let d = logsumexp(v);
    assert_eq!(d, (100.0f64).ln());

    let v2 = &[0.0, 0.0, 1000.0];
    let d = logsumexp(v2);
    assert_eq!(d, 1000.0);
}
