//! The payment gate's fixed material: which mint a submitted payment token
//! must come from, and the browser script of the payment page.

use vstd::prelude::*;

verus! {

/// The mint whose tokens settle the submission fee.
pub const ACCEPTED_MINT_PRIMARY: &'static str = "https://testnut.cashu.space";

/// A second mint offered to payers in the payment request.
pub const ACCEPTED_MINT_SECONDARY: &'static str = "https://mint.minibits.cash/Bitcoin";

/// The fee for storing one connection record, in satoshis.
pub const PAYMENT_AMOUNT_SATS: u64 = 100;

/// Whether a payment token's mint settles the fee: only the primary mint is
/// accepted.
pub fn is_accepted_mint(url: &str) -> (r: bool)
    ensures
        r == (url@ == ACCEPTED_MINT_PRIMARY@),
{
    crate::strutil::str_eq(url, ACCEPTED_MINT_PRIMARY)
}

/// The browser script of the payment page: it intercepts the form submission
/// and resubmits it with the pasted payment token as a header.
pub const PAYMENT_PAGE_SCRIPT: &'static str = r#"
        const tokenInput = document.getElementById('cashu-token');
        const form = document.getElementById('payment-form');
        const statusMessage = document.getElementById('status-message');
        const submitBtn = form.querySelector('button[type="submit"]');

        function showStatus(message, isError = false) {
            statusMessage.textContent = message;
            statusMessage.className = 'status-message ' + (isError ? 'status-error' : 'status-success');
            statusMessage.style.display = 'block';
        }

        function hideStatus() {
            statusMessage.style.display = 'none';
        }

        form.addEventListener('submit', async function(e) {
            e.preventDefault();

            const cashuToken = tokenInput.value.trim();

            if (!cashuToken) {
                showStatus('Please paste your Cashu token to pay the ocean toll.', true);
                return;
            }

            if (!cashuToken.startsWith('cashu')) {
                showStatus('Invalid token format. It must start with "cashuA".', true);
                return;
            }

            form.classList.add('processing');
            submitBtn.disabled = true;
            showStatus('Navigating through the payment waters...');

            try {
                const formData = new FormData(form);

                const response = await fetch('/submit', {
                    method: 'POST',
                    headers: {
                        'Content-Type': 'application/x-www-form-urlencoded',
                        'X-Cashu': cashuToken
                    },
                    body: new URLSearchParams({
                        connection: formData.get('connection'),
                        port: formData.get('port')
                    })
                });

                if (response.ok) {
                    showStatus('Passage paid! Setting sail to your destination...', false);
                    const responseText = await response.text();
                    form.querySelectorAll('input, textarea, button').forEach(el => el.disabled = true);

                    setTimeout(() => {
                        document.open();
                        document.write(responseText);
                        document.close();
                    }, 1500);
                } else {
                    const errorText = await response.text();
                    showStatus(`Payment failed: ${errorText || 'Please check your token and try again.'}`, true);
                }
            } catch (error) {
                console.error('Payment error:', error);
                showStatus('The ocean depths swallowed your request. Please try again.', true);
            } finally {
                form.classList.remove('processing');
                submitBtn.disabled = false;
            }
        });

        tokenInput.addEventListener('input', function() {
            hideStatus();
        });
    "#;

/// The payment page's script, as the page template embeds it.
pub fn payment_script() -> (r: String)
    ensures
        r@ == PAYMENT_PAGE_SCRIPT@,
{
    String::from_str(PAYMENT_PAGE_SCRIPT)
}

} // verus!
